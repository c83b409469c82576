//! Character-level string utilities: conversions between `String` and
//! `Vec<char>`, decimal parsing and formatting, splitting, joining and
//! substitution, each pinned to a spec-level definition.

use vstd::prelude::*;
use vstd::multiset::Multiset;
use vstd::string::StrSliceExecFns;

verus! {

/// Relies on std's `String::push`: appends exactly one character at the end.
#[verifier::external_body]
pub fn push_char(s: &mut String, c: char)
    ensures
        final(s)@ == old(s)@.push(c),
{
    s.push(c);
}

/// The characters of `s`, as a vector.
pub fn chars_of(s: &str) -> (r: Vec<char>)
    ensures
        r@ == s@,
{
    let n: usize = s.unicode_len();
    let mut r: Vec<char> = Vec::new();
    let mut i: usize = 0;
    while i < n
        invariant
            i <= n,
            n == s@.len(),
            r@ == s@.subrange(0, i as int),
        decreases n - i,
    {
        let c: char = s.get_char(i);
        r.push(c);
        proof {
            assert(s@.subrange(0, i + 1 as int) =~= s@.subrange(0, i as int).push(s@[i as int]));
        }
        i = i + 1;
    }
    proof {
        assert(r@ =~= s@);
    }
    r
}

/// A `String` holding exactly the characters of `cs`.
pub fn string_from_chars(cs: &Vec<char>) -> (r: String)
    ensures
        r@ == cs@,
{
    let mut r: String = String::new();
    let mut i: usize = 0;
    while i < cs.len()
        invariant
            i <= cs@.len(),
            r@ == cs@.subrange(0, i as int),
        decreases cs@.len() - i,
    {
        push_char(&mut r, cs[i]);
        proof {
            assert(cs@.subrange(0, i + 1 as int) =~= cs@.subrange(0, i as int).push(cs@[i as int]));
        }
        i = i + 1;
    }
    proof {
        assert(r@ =~= cs@);
    }
    r
}

/// True exactly when the two string slices hold the same characters.
pub fn str_eq(a: &str, b: &str) -> (r: bool)
    ensures
        r == (a@ == b@),
{
    let n: usize = a.unicode_len();
    let m: usize = b.unicode_len();
    if n != m {
        proof {
            assert(a@ != b@);
        }
        return false;
    }
    let mut i: usize = 0;
    while i < n
        invariant
            i <= n,
            n == a@.len(),
            n == b@.len(),
            forall|j: int| 0 <= j < i ==> a@[j] == b@[j],
        decreases n - i,
    {
        if a.get_char(i) != b.get_char(i) {
            proof {
                assert(a@[i as int] != b@[i as int]);
            }
            return false;
        }
        i = i + 1;
    }
    proof {
        assert(a@ =~= b@);
    }
    true
}

/// The views of a sequence of strings.
pub open spec fn views_of(s: Seq<String>) -> Seq<Seq<char>> {
    s.map_values(|t: String| t@)
}

pub proof fn lemma_views_push(s: Seq<String>, x: String)
    ensures
        views_of(s.push(x)) =~= views_of(s).push(x@),
{
    assert(views_of(s.push(x)).len() == s.len() + 1);
    assert(views_of(s).push(x@).len() == s.len() + 1);
    assert forall|j: int| 0 <= j < s.len() + 1 implies #[trigger] views_of(s.push(x))[j]
        == views_of(s).push(x@)[j] by {
        if j < s.len() {
            assert(s.push(x)[j] == s[j]);
        }
    }
}

pub proof fn lemma_views_concat(a: Seq<String>, b: Seq<String>)
    ensures
        views_of(a + b) =~= views_of(a) + views_of(b),
{
    assert forall|j: int| 0 <= j < a.len() + b.len() implies #[trigger] views_of(a + b)[j]
        == (views_of(a) + views_of(b))[j] by {
        if j < a.len() {
            assert((a + b)[j] == a[j]);
        } else {
            assert((a + b)[j] == b[j - a.len()]);
        }
    }
}

/// Appends clones of all strings in `xs` to `out`.
pub fn push_all_strings(out: &mut Vec<String>, xs: &Vec<String>)
    ensures
        final(out)@ == old(out)@ + xs@,
{
    let ghost base = out@;
    let mut k: usize = 0;
    while k < xs.len()
        invariant
            k <= xs@.len(),
            out@ == base + xs@.subrange(0, k as int),
        decreases xs@.len() - k,
    {
        let ghost opre = out@;
        out.push(xs[k].clone());
        proof {
            assert(out@ =~= opre.push(xs@[k as int]));
            assert(xs@.subrange(0, k + 1 as int) =~= xs@.subrange(0, k as int).push(
                xs@[k as int],
            ));
            assert(out@ =~= base + xs@.subrange(0, k + 1 as int));
        }
        k = k + 1;
    }
    proof {
        assert(xs@.subrange(0, xs@.len() as int) =~= xs@);
    }
}

// ---------------------------------------------------------------------------
// Decimal digits
// ---------------------------------------------------------------------------

pub open spec fn is_digit_char(c: char) -> bool {
    ('0' as u32) <= (c as u32) && (c as u32) <= ('9' as u32)
}

pub open spec fn digit_val(c: char) -> nat {
    (c as u32 - '0' as u32) as nat
}

pub open spec fn digit_char(d: nat) -> char {
    if d == 0 {
        '0'
    } else if d == 1 {
        '1'
    } else if d == 2 {
        '2'
    } else if d == 3 {
        '3'
    } else if d == 4 {
        '4'
    } else if d == 5 {
        '5'
    } else if d == 6 {
        '6'
    } else if d == 7 {
        '7'
    } else if d == 8 {
        '8'
    } else {
        '9'
    }
}

pub open spec fn all_digits(s: Seq<char>) -> bool {
    forall|i: int| 0 <= i < s.len() ==> is_digit_char(#[trigger] s[i])
}

/// The value of a string of decimal digits.
pub open spec fn dec_val(s: Seq<char>) -> nat
    decreases s.len(),
{
    if s.len() == 0 {
        0
    } else {
        dec_val(s.drop_last()) * 10 + digit_val(s.last())
    }
}

/// The digit part of `s`: everything after an optional leading `+`.
pub open spec fn uint_digits(s: Seq<char>) -> Seq<char> {
    if s.len() > 0 && s[0] == '+' {
        s.drop_first()
    } else {
        s
    }
}

/// Whether `s` is a valid unsigned decimal literal: an optional leading `+`,
/// then one or more digits.
pub open spec fn is_uint_literal(s: Seq<char>) -> bool {
    uint_digits(s).len() > 0 && all_digits(uint_digits(s))
}

pub open spec fn uint_val(s: Seq<char>) -> nat {
    dec_val(uint_digits(s))
}

proof fn lemma_dec_val_grows(s: Seq<char>, k: int)
    requires
        0 <= k <= s.len(),
    ensures
        dec_val(s) >= dec_val(s.subrange(0, k)),
    decreases s.len() - k,
{
    if k < s.len() {
        lemma_dec_val_grows(s, k + 1);
        let t = s.subrange(0, k + 1);
        assert(t.drop_last() =~= s.subrange(0, k));
        assert(dec_val(t) == dec_val(s.subrange(0, k)) * 10 + digit_val(t.last()));
        assert(dec_val(s.subrange(0, k)) * 10 >= dec_val(s.subrange(0, k))) by (nonlinear_arith);
    } else {
        assert(s.subrange(0, k) =~= s);
    }
}

/// Parses `cs` as an unsigned decimal literal.  Returns `None` exactly when
/// `cs` is not a literal or its value does not fit in a `u64`.
pub fn parse_uint(cs: &Vec<char>) -> (r: Option<u64>)
    ensures
        match r {
            Some(v) => is_uint_literal(cs@) && uint_val(cs@) == v,
            None => !is_uint_literal(cs@) || uint_val(cs@) > u64::MAX,
        },
{
    let ghost s = cs@;
    let mut i: usize = 0;
    if cs.len() > 0 && cs[0] == '+' {
        i = 1;
    }
    proof {
        assert(uint_digits(s) =~= s.subrange(i as int, s.len() as int));
    }
    if i == cs.len() {
        return None;
    }
    let start: usize = i;
    let mut acc: u64 = 0;
    while i < cs.len()
        invariant
            start <= i <= cs@.len(),
            s == cs@,
            uint_digits(s) =~= s.subrange(start as int, s.len() as int),
            start < cs@.len(),
            all_digits(s.subrange(start as int, i as int)),
            acc == dec_val(s.subrange(start as int, i as int)),
        decreases cs@.len() - i,
    {
        let c: char = cs[i];
        let cv: u32 = c as u32;
        if cv < '0' as u32 || cv > '9' as u32 {
            proof {
                assert(!is_digit_char(uint_digits(s)[i - start]));
            }
            return None;
        }
        let d: u64 = (cv - '0' as u32) as u64;
        if acc > (u64::MAX - d) / 10 {
            proof {
                let pre = s.subrange(start as int, i + 1 as int);
                assert(pre.drop_last() =~= s.subrange(start as int, i as int));
                assert(dec_val(pre) == acc * 10 + d);
                assert(acc * 10 + d > u64::MAX) by (nonlinear_arith)
                    requires
                        acc > (u64::MAX - d) / 10 && d <= 9,
                ;
                if all_digits(uint_digits(s)) {
                    lemma_dec_val_grows(uint_digits(s), i + 1 - start);
                    assert(uint_digits(s).subrange(0, i + 1 - start) =~= pre);
                }
            }
            return None;
        }
        proof {
            assert(acc * 10 + d <= u64::MAX) by (nonlinear_arith)
                requires
                    acc <= (u64::MAX - d) / 10 && d <= 9,
            ;
            let pre = s.subrange(start as int, i + 1 as int);
            assert(pre.drop_last() =~= s.subrange(start as int, i as int));
            assert(pre.last() == c);
        }
        acc = acc * 10 + d;
        i = i + 1;
    }
    proof {
        assert(s.subrange(start as int, s.len() as int) =~= uint_digits(s));
    }
    Some(acc)
}

/// The canonical decimal representation of `n`.
pub open spec fn dec_digits(n: nat) -> Seq<char>
    decreases n,
{
    if n < 10 {
        seq![digit_char(n)]
    } else {
        dec_digits(n / 10).push(digit_char(n % 10))
    }
}

fn digit_to_char(d: u64) -> (c: char)
    requires
        d < 10,
    ensures
        c == digit_char(d as nat),
{
    if d == 0 {
        '0'
    } else if d == 1 {
        '1'
    } else if d == 2 {
        '2'
    } else if d == 3 {
        '3'
    } else if d == 4 {
        '4'
    } else if d == 5 {
        '5'
    } else if d == 6 {
        '6'
    } else if d == 7 {
        '7'
    } else if d == 8 {
        '8'
    } else {
        '9'
    }
}

/// The decimal representation of `n`, as characters.
pub fn u64_to_chars(n: u64) -> (r: Vec<char>)
    ensures
        r@ == dec_digits(n as nat),
{
    let mut rev: Vec<char> = Vec::new();
    let mut cur: u64 = n;
    while cur >= 10
        invariant
            dec_digits(n as nat) == dec_digits(cur as nat) + rev@.reverse(),
        decreases cur,
    {
        let d: u64 = cur % 10;
        proof {
            assert(dec_digits(cur as nat) == dec_digits((cur / 10) as nat).push(digit_char(
                (cur % 10) as nat,
            )));
            assert(rev@.push(digit_char(d as nat)).reverse() =~= seq![
                digit_char(d as nat),
            ] + rev@.reverse());
            assert(dec_digits((cur / 10) as nat).push(digit_char((cur % 10) as nat))
                + rev@.reverse() =~= dec_digits((cur / 10) as nat) + (seq![
                digit_char(d as nat),
            ] + rev@.reverse()));
        }
        rev.push(digit_to_char(d));
        cur = cur / 10;
    }
    proof {
        assert(dec_digits(cur as nat) =~= seq![digit_char(cur as nat)]);
    }
    let mut r: Vec<char> = Vec::new();
    r.push(digit_to_char(cur));
    let mut j: usize = rev.len();
    while j > 0
        invariant
            j <= rev@.len(),
            r@ == seq![digit_char(cur as nat)] + rev@.subrange(j as int, rev@.len() as int).reverse(),
        decreases j,
    {
        proof {
            let tail = rev@.subrange(j - 1 as int, rev@.len() as int);
            assert(tail.drop_first() =~= rev@.subrange(j as int, rev@.len() as int));
            assert(tail.reverse() =~= tail.drop_first().reverse().push(tail[0]));
        }
        j = j - 1;
        r.push(rev[j]);
        proof {
            assert(r@ =~= seq![digit_char(cur as nat)] + rev@.subrange(
                j as int,
                rev@.len() as int,
            ).reverse());
        }
    }
    proof {
        assert(rev@.subrange(0, rev@.len() as int) =~= rev@);
        assert(r@ =~= dec_digits(cur as nat) + rev@.reverse());
    }
    r
}

/// The decimal representation of `n`, as a `String`.
pub fn u64_to_string(n: u64) -> (r: String)
    ensures
        r@ == dec_digits(n as nat),
{
    let cs = u64_to_chars(n);
    string_from_chars(&cs)
}

// ---------------------------------------------------------------------------
// Splitting and joining
// ---------------------------------------------------------------------------

/// The pieces of `s` between occurrences of `sep`; always at least one piece.
pub open spec fn split_seq(s: Seq<char>, sep: char) -> Seq<Seq<char>>
    decreases s.len(),
{
    if s.len() == 0 {
        seq![Seq::<char>::empty()]
    } else if s[0] == sep {
        seq![Seq::<char>::empty()] + split_seq(s.drop_first(), sep)
    } else {
        let rest = split_seq(s.drop_first(), sep);
        seq![seq![s[0]] + rest[0]] + rest.drop_first()
    }
}

pub proof fn lemma_split_nonempty(s: Seq<char>, sep: char)
    ensures
        split_seq(s, sep).len() >= 1,
    decreases s.len(),
{
    if s.len() > 0 {
        lemma_split_nonempty(s.drop_first(), sep);
    }
}

/// Splits `cs` at every occurrence of `sep`.
pub fn split_chars(cs: &Vec<char>, sep: char) -> (r: Vec<Vec<char>>)
    ensures
        r@.map_values(|p: Vec<char>| p@) == split_seq(cs@, sep),
{
    let ghost s = cs@;
    let mut pieces: Vec<Vec<char>> = Vec::new();
    let mut cur: Vec<char> = Vec::new();
    let mut i: usize = 0;
    proof {
        lemma_split_nonempty(s, sep);
        assert(s.subrange(0, s.len() as int) =~= s);
        assert(pieces@.map_values(|p: Vec<char>| p@) =~= Seq::<Seq<char>>::empty());
        assert(cur@ + split_seq(s, sep)[0] =~= split_seq(s, sep)[0]);
        assert(Seq::<Seq<char>>::empty() + seq![split_seq(s, sep)[0]] + split_seq(
            s,
            sep,
        ).drop_first() =~= split_seq(s, sep));
    }
    while i < cs.len()
        invariant
            i <= cs@.len(),
            s == cs@,
            split_seq(s, sep) =~= pieces@.map_values(|p: Vec<char>| p@) + seq![
                cur@ + split_seq(s.subrange(i as int, s.len() as int), sep)[0],
            ] + split_seq(s.subrange(i as int, s.len() as int), sep).drop_first(),
        decreases cs@.len() - i,
    {
        let ghost tail = s.subrange(i as int, s.len() as int);
        let ghost tail2 = s.subrange(i + 1 as int, s.len() as int);
        proof {
            lemma_split_nonempty(tail2, sep);
            assert(tail.len() > 0);
            assert(tail[0] == s[i as int]);
            assert(tail.drop_first() =~= tail2);
        }
        let c: char = cs[i];
        if c == sep {
            proof {
                assert(split_seq(tail, sep) =~= seq![Seq::<char>::empty()] + split_seq(
                    tail2,
                    sep,
                ));
                assert(cur@ + split_seq(tail, sep)[0] =~= cur@);
            }
            pieces.push(cur);
            cur = Vec::new();
            proof {
                assert(split_seq(s, sep) =~= pieces@.map_values(|p: Vec<char>| p@) + seq![
                    cur@ + split_seq(tail2, sep)[0],
                ] + split_seq(tail2, sep).drop_first());
            }
        } else {
            proof {
                let rest = split_seq(tail2, sep);
                assert(split_seq(tail, sep) =~= seq![seq![tail[0]] + rest[0]]
                    + rest.drop_first());
                assert(split_seq(tail, sep)[0] == seq![tail[0]] + rest[0]);
                assert(split_seq(tail, sep).drop_first() =~= rest.drop_first());
                assert(cur@.push(c) + rest[0] =~= cur@ + (seq![tail[0]] + rest[0]));
            }
            cur.push(c);
            proof {
                assert(split_seq(s, sep) =~= pieces@.map_values(|p: Vec<char>| p@) + seq![
                    cur@ + split_seq(tail2, sep)[0],
                ] + split_seq(tail2, sep).drop_first());
            }
        }
        i = i + 1;
    }
    proof {
        assert(s.subrange(s.len() as int, s.len() as int) =~= Seq::<char>::empty());
        assert(cur@ + split_seq(Seq::<char>::empty(), sep)[0] =~= cur@);
        assert(split_seq(Seq::<char>::empty(), sep).drop_first() =~= Seq::<Seq<char>>::empty());
    }
    pieces.push(cur);
    proof {
        assert(pieces@.map_values(|p: Vec<char>| p@) =~= split_seq(s, sep));
    }
    pieces
}

/// A line with a trailing carriage return removed.
pub open spec fn strip_cr(l: Seq<char>) -> Seq<char> {
    if l.len() > 0 && l.last() == '\r' {
        l.drop_last()
    } else {
        l
    }
}

/// The lines of `s`, as a line-based reader yields them: split at `'\n'`,
/// no final empty piece after a trailing newline, each line stripped of a
/// trailing `'\r'`.
pub open spec fn lines_spec(s: Seq<char>) -> Seq<Seq<char>> {
    let parts = split_seq(s, '\n');
    let trimmed = if parts.last().len() == 0 {
        parts.drop_last()
    } else {
        parts
    };
    trimmed.map_values(|l: Seq<char>| strip_cr(l))
}

/// The lines of `s`.
pub fn lines_of(s: &str) -> (r: Vec<String>)
    ensures
        r@.map_values(|l: String| l@) == lines_spec(s@),
{
    let cs = chars_of(s);
    let mut parts = split_chars(&cs, '\n');
    let ghost ps = parts@.map_values(|p: Vec<char>| p@);
    proof {
        lemma_split_nonempty(cs@, '\n');
    }
    let last_len: usize = parts[parts.len() - 1].len();
    if last_len == 0 {
        let ghost before = parts@;
        let _ = parts.pop();
        proof {
            assert(parts@ =~= before.drop_last());
            assert(parts@.map_values(|p: Vec<char>| p@) =~= ps.drop_last());
        }
    }
    let mut r: Vec<String> = Vec::new();
    let ghost trimmed = if ps.last().len() == 0 {
        ps.drop_last()
    } else {
        ps
    };
    let mut i: usize = 0;
    while i < parts.len()
        invariant
            i <= parts@.len(),
            parts@.map_values(|p: Vec<char>| p@) == trimmed,
            r@.map_values(|l: String| l@) =~= trimmed.subrange(0, i as int).map_values(
                |l: Seq<char>| strip_cr(l),
            ),
        decreases parts@.len() - i,
    {
        let ghost pv = parts@[i as int]@;
        let piece_len: usize = parts[i].len();
        let line: String = if piece_len > 0 && parts[i][piece_len - 1] == '\r' {
            let p = copy_chars(&parts[i], piece_len - 1);
            proof {
                assert(p@ =~= strip_cr(pv));
            }
            string_from_chars(&p)
        } else {
            proof {
                assert(pv =~= strip_cr(pv));
            }
            string_from_chars(&parts[i])
        };
        let ghost rpre = r@;
        r.push(line);
        proof {
            assert(rpre.map_values(|l: String| l@).len() == rpre.len());
            assert(trimmed.subrange(0, i as int).map_values(|l: Seq<char>| strip_cr(l)).len()
                == i);
            assert(rpre.len() == i);
            assert(trimmed[i as int] == pv);
            assert(line@ == strip_cr(pv));
            assert(r@ == rpre.push(line));
            assert forall|j: int| 0 <= j < i + 1 implies #[trigger] r@[j]@ == strip_cr(
                trimmed[j],
            ) by {
                if j < i {
                    assert(rpre.map_values(|l: String| l@)[j] == rpre[j]@);
                    assert(trimmed.subrange(0, i as int).map_values(|l: Seq<char>| strip_cr(l))[j]
                        == strip_cr(trimmed.subrange(0, i as int)[j]));
                }
            }
            assert(r@.map_values(|l: String| l@) =~= trimmed.subrange(0, i + 1 as int).map_values(
                |l: Seq<char>| strip_cr(l),
            ));
        }
        i = i + 1;
    }
    proof {
        assert(trimmed.subrange(0, trimmed.len() as int) =~= trimmed);
    }
    r
}

/// The items joined with `sep` between them; the join of no items is empty.
pub open spec fn join_seq(items: Seq<Seq<char>>, sep: char) -> Seq<char>
    decreases items.len(),
{
    if items.len() == 0 {
        Seq::<char>::empty()
    } else if items.len() == 1 {
        items[0]
    } else {
        join_seq(items.drop_last(), sep).push(sep) + items.last()
    }
}

/// Joins `items` with `sep` between consecutive items.
pub fn join_with(items: &Vec<String>, sep: char) -> (r: String)
    ensures
        r@ == join_seq(items@.map_values(|l: String| l@), sep),
{
    let ghost views = items@.map_values(|l: String| l@);
    let mut out: Vec<char> = Vec::new();
    let mut i: usize = 0;
    while i < items.len()
        invariant
            i <= items@.len(),
            views == items@.map_values(|l: String| l@),
            out@ == join_seq(views.subrange(0, i as int), sep),
        decreases items@.len() - i,
    {
        if i > 0 {
            out.push(sep);
        }
        let cs = chars_of(items[i].as_str());
        let mut j: usize = 0;
        while j < cs.len()
            invariant
                j <= cs@.len(),
                cs@ == views[i as int],
                i < views.len(),
                i > 0 ==> out@ == join_seq(views.subrange(0, i as int), sep).push(sep)
                    + cs@.subrange(0, j as int),
                i == 0 ==> out@ == join_seq(views.subrange(0, i as int), sep) + cs@.subrange(
                    0,
                    j as int,
                ),
            decreases cs@.len() - j,
        {
            out.push(cs[j]);
            proof {
                assert(cs@.subrange(0, j + 1 as int) =~= cs@.subrange(0, j as int).push(
                    cs@[j as int],
                ));
                assert(out@ =~= (if i > 0 {
                    join_seq(views.subrange(0, i as int), sep).push(sep) + cs@.subrange(
                        0,
                        j + 1 as int,
                    )
                } else {
                    join_seq(views.subrange(0, i as int), sep) + cs@.subrange(0, j + 1 as int)
                }));
            }
            j = j + 1;
        }
        proof {
            let pre = views.subrange(0, i + 1 as int);
            assert(pre.drop_last() =~= views.subrange(0, i as int));
            assert(cs@.subrange(0, cs@.len() as int) =~= cs@);
            assert(pre.last() == views[i as int]);
            if i == 0 {
                assert(join_seq(pre, sep) == pre[0]);
                assert(out@ =~= join_seq(pre, sep));
            } else {
                assert(join_seq(pre, sep) == join_seq(pre.drop_last(), sep).push(sep)
                    + pre.last());
                assert(out@ =~= join_seq(pre, sep));
            }
        }
        i = i + 1;
    }
    proof {
        assert(views.subrange(0, views.len() as int) =~= views);
    }
    string_from_chars(&out)
}

pub proof fn lemma_split_no_sep(x: Seq<char>, sep: char)
    requires
        !x.contains(sep),
    ensures
        split_seq(x, sep) =~= seq![x],
    decreases x.len(),
{
    if x.len() == 0 {
        assert(x =~= Seq::<char>::empty());
        assert(split_seq(x, sep) =~= seq![x]);
    } else {
        assert(x[0] != sep);
        assert(!x.drop_first().contains(sep)) by {
            if x.drop_first().contains(sep) {
                let j = choose|j: int| 0 <= j < x.drop_first().len() && x.drop_first()[j] == sep;
                assert(x[j + 1] == sep);
            }
        }
        lemma_split_no_sep(x.drop_first(), sep);
        assert(seq![x[0]] + x.drop_first() =~= x);
        let rest = split_seq(x.drop_first(), sep);
        assert(rest[0] == x.drop_first());
        assert(rest.drop_first() =~= Seq::<Seq<char>>::empty());
        assert(split_seq(x, sep) == seq![seq![x[0]] + rest[0]] + rest.drop_first());
        assert(seq![seq![x[0]] + rest[0]] + rest.drop_first() =~= seq![x]);
    }
}

/// Splitting takes off the first separator-free piece.
pub proof fn lemma_split_line(x: Seq<char>, rest: Seq<char>, sep: char)
    requires
        !x.contains(sep),
    ensures
        split_seq(x + seq![sep] + rest, sep) =~= seq![x] + split_seq(rest, sep),
    decreases x.len(),
{
    lemma_split_nonempty(rest, sep);
    if x.len() == 0 {
        assert(x + seq![sep] + rest =~= seq![sep] + rest);
        let w = seq![sep] + rest;
        assert(w[0] == sep);
        assert(w.drop_first() =~= rest);
        assert(split_seq(w, sep) =~= seq![Seq::<char>::empty()] + split_seq(rest, sep));
        assert(x =~= Seq::<char>::empty());
        assert(split_seq(x + seq![sep] + rest, sep) =~= seq![x] + split_seq(rest, sep));
    } else {
        let w = x + seq![sep] + rest;
        assert(w[0] == x[0]);
        assert(x[0] != sep);
        assert(!x.drop_first().contains(sep)) by {
            if x.drop_first().contains(sep) {
                let j = choose|j: int| 0 <= j < x.drop_first().len() && x.drop_first()[j] == sep;
                assert(x[j + 1] == sep);
            }
        }
        lemma_split_line(x.drop_first(), rest, sep);
        assert(w.drop_first() =~= x.drop_first() + seq![sep] + rest);
        let inner = split_seq(x.drop_first() + seq![sep] + rest, sep);
        assert(inner =~= seq![x.drop_first()] + split_seq(rest, sep));
        assert(split_seq(w, sep) =~= seq![seq![w[0]] + inner[0]] + inner.drop_first());
        assert(seq![w[0]] + inner[0] =~= x);
        assert(inner.drop_first() =~= split_seq(rest, sep));
        assert(split_seq(x + seq![sep] + rest, sep) =~= seq![x] + split_seq(rest, sep));
    }
}

/// Joining from the left: the first item, the separator, then the rest.
pub proof fn lemma_join_left(items: Seq<Seq<char>>, sep: char)
    requires
        items.len() >= 2,
    ensures
        join_seq(items, sep) =~= items[0] + seq![sep] + join_seq(items.drop_first(), sep),
    decreases items.len(),
{
    if items.len() == 2 {
        assert(items.drop_last() =~= seq![items[0]]);
        assert(join_seq(items.drop_last(), sep) == items[0]);
        assert(items.drop_first() =~= seq![items[1]]);
        assert(join_seq(items.drop_first(), sep) == items[1]);
        assert(join_seq(items, sep) =~= items[0].push(sep) + items[1]);
        assert(items[0].push(sep) =~= items[0] + seq![sep]);
    } else {
        lemma_join_left(items.drop_last(), sep);
        assert(items.drop_last()[0] == items[0]);
        assert(items.drop_last().drop_first() =~= items.drop_first().drop_last());
        assert(join_seq(items, sep) =~= join_seq(items.drop_last(), sep).push(sep)
            + items.last());
        assert(join_seq(items.drop_last(), sep) =~= items[0] + seq![sep] + join_seq(
            items.drop_first().drop_last(),
            sep,
        ));
        assert(items.drop_first().len() >= 2);
        assert(join_seq(items.drop_first(), sep) =~= join_seq(
            items.drop_first().drop_last(),
            sep,
        ).push(sep) + items.drop_first().last());
        assert(items.drop_first().last() == items.last());
        assert(join_seq(items, sep) =~= items[0] + seq![sep] + join_seq(
            items.drop_first(),
            sep,
        ));
    }
}

/// Splitting a join gives the items back, when no item contains the
/// separator.
pub proof fn lemma_join_split(items: Seq<Seq<char>>, sep: char)
    requires
        items.len() >= 1,
        forall|i: int| 0 <= i < items.len() ==> !(#[trigger] items[i]).contains(sep),
    ensures
        split_seq(join_seq(items, sep), sep) =~= items,
    decreases items.len(),
{
    if items.len() == 1 {
        lemma_split_no_sep(items[0], sep);
        assert(seq![items[0]] =~= items);
    } else {
        lemma_join_left(items, sep);
        assert(forall|i: int|
            0 <= i < items.drop_first().len() ==> !(#[trigger] items.drop_first()[i]).contains(
                sep,
            ));
        lemma_join_split(items.drop_first(), sep);
        lemma_split_line(items[0], join_seq(items.drop_first(), sep), sep);
        assert(seq![items[0]] + items.drop_first() =~= items);
    }
}

/// A join contains no character that the separator is not and no item
/// holds.
pub proof fn lemma_join_no_char(items: Seq<Seq<char>>, sep: char, c: char)
    requires
        c != sep,
        forall|i: int| 0 <= i < items.len() ==> !(#[trigger] items[i]).contains(c),
    ensures
        !join_seq(items, sep).contains(c),
    decreases items.len(),
{
    if items.len() > 1 {
        assert(forall|i: int|
            0 <= i < items.drop_last().len() ==> !(#[trigger] items.drop_last()[i]).contains(c));
        lemma_join_no_char(items.drop_last(), sep, c);
        let j = join_seq(items, sep);
        assert(j =~= join_seq(items.drop_last(), sep).push(sep) + items.last());
        if j.contains(c) {
            let k = choose|k: int| 0 <= k < j.len() && j[k] == c;
            let pre = join_seq(items.drop_last(), sep);
            if k < pre.len() {
                assert(pre[k] == c);
            } else if k == pre.len() {
                assert(j[k] == sep);
            } else {
                assert(items.last()[k - pre.len() - 1] == c);
                assert(items[items.len() - 1].contains(c));
            }
        }
    } else if items.len() == 1 {
        assert(join_seq(items, sep) == items[0]);
    }
}

// ---------------------------------------------------------------------------
// Lexicographic order on character sequences
// ---------------------------------------------------------------------------

/// Lexicographic order by code point; a prefix comes before its extensions.
pub open spec fn lex_le(a: Seq<char>, b: Seq<char>) -> bool
    decreases a.len(),
{
    if a.len() == 0 {
        true
    } else if b.len() == 0 {
        false
    } else if a[0] != b[0] {
        (a[0] as u32) < (b[0] as u32)
    } else {
        lex_le(a.drop_first(), b.drop_first())
    }
}

pub proof fn lemma_lex_le_total(a: Seq<char>, b: Seq<char>)
    ensures
        lex_le(a, b) || lex_le(b, a),
    decreases a.len(),
{
    if a.len() > 0 && b.len() > 0 {
        if a[0] == b[0] {
            lemma_lex_le_total(a.drop_first(), b.drop_first());
        } else {
            assert((a[0] as u32) != (b[0] as u32)) by {
                vstd::utf8::char_u32_cast(a[0], a[0] as u32);
                vstd::utf8::char_u32_cast(b[0], b[0] as u32);
            }
        }
    }
}

pub proof fn lemma_lex_le_trans(a: Seq<char>, b: Seq<char>, c: Seq<char>)
    requires
        lex_le(a, b),
        lex_le(b, c),
    ensures
        lex_le(a, c),
    decreases a.len(),
{
    if a.len() > 0 && b.len() > 0 && c.len() > 0 {
        if a[0] == b[0] && b[0] == c[0] {
            lemma_lex_le_trans(a.drop_first(), b.drop_first(), c.drop_first());
        }
    }
}

/// Decides `lex_le(a@, b@)`.
pub fn chars_le(a: &Vec<char>, b: &Vec<char>) -> (r: bool)
    ensures
        r == lex_le(a@, b@),
{
    let n: usize = if a.len() < b.len() {
        a.len()
    } else {
        b.len()
    };
    let mut i: usize = 0;
    proof {
        assert(a@.subrange(0, a@.len() as int) =~= a@);
        assert(b@.subrange(0, b@.len() as int) =~= b@);
    }
    while i < n
        invariant
            i <= n,
            n == if a@.len() < b@.len() {
                a@.len()
            } else {
                b@.len()
            },
            forall|j: int| 0 <= j < i ==> a@[j] == b@[j],
            lex_le(a@, b@) == lex_le(
                a@.subrange(i as int, a@.len() as int),
                b@.subrange(i as int, b@.len() as int),
            ),
        decreases n - i,
    {
        let ghost at = a@.subrange(i as int, a@.len() as int);
        let ghost bt = b@.subrange(i as int, b@.len() as int);
        proof {
            assert(at.len() > 0 && bt.len() > 0);
            assert(at[0] == a@[i as int] && bt[0] == b@[i as int]);
            assert(at.drop_first() =~= a@.subrange(i + 1 as int, a@.len() as int));
            assert(bt.drop_first() =~= b@.subrange(i + 1 as int, b@.len() as int));
        }
        let ca: char = a[i];
        let cb: char = b[i];
        if ca != cb {
            return (ca as u32) < (cb as u32);
        }
        i = i + 1;
    }
    proof {
        let at = a@.subrange(i as int, a@.len() as int);
        let bt = b@.subrange(i as int, b@.len() as int);
        assert(at.len() == 0 || bt.len() == 0);
        assert(lex_le(at, bt) == (a@.len() <= b@.len()));
    }
    a.len() <= b.len()
}

/// Non-decreasing in the lexicographic order.
pub open spec fn sorted_lex(s: Seq<Seq<char>>) -> bool {
    forall|i: int, j: int| 0 <= i < j < s.len() ==> lex_le(#[trigger] s[i], #[trigger] s[j])
}

pub proof fn lemma_to_multiset_empty(s: Seq<Seq<char>>)
    requires
        s.len() == 0,
    ensures
        s.to_multiset() =~= Multiset::<Seq<char>>::empty(),
{
    broadcast use vstd::seq_lib::group_to_multiset_ensures;

    assert forall|e: Seq<char>| s.to_multiset().count(e) == 0 by {
        if s.to_multiset().count(e) > 0 {
            assert(s.contains(e));
        }
    }
}

pub proof fn lemma_to_multiset_empty_pairs(s: Seq<(nat, Seq<char>)>)
    requires
        s.len() == 0,
    ensures
        s.to_multiset() =~= Multiset::<(nat, Seq<char>)>::empty(),
{
    broadcast use vstd::seq_lib::group_to_multiset_ensures;

    assert forall|e: (nat, Seq<char>)| s.to_multiset().count(e) == 0 by {
        if s.to_multiset().count(e) > 0 {
            assert(s.contains(e));
        }
    }
}

/// The first position whose element is not `lex_le` the key: everything
/// before it is.
fn insertion_point(out: &Vec<String>, xc: &Vec<char>) -> (p: usize)
    ensures
        p <= out@.len(),
        forall|j: int| 0 <= j < p ==> lex_le(#[trigger] views_of(out@)[j], xc@),
        p < out@.len() ==> !lex_le(views_of(out@)[p as int], xc@),
{
    let mut p: usize = 0;
    while p < out.len()
        invariant
            p <= out@.len(),
            forall|j: int| 0 <= j < p ==> lex_le(#[trigger] views_of(out@)[j], xc@),
        decreases out@.len() - p,
    {
        let oc = chars_of(out[p].as_str());
        proof {
            assert(views_of(out@)[p as int] == out@[p as int]@);
        }
        if !chars_le(&oc, &xc) {
            return p;
        }
        p = p + 1;
    }
    p
}

/// Sorts strings into non-decreasing lexicographic order.
pub fn sort_strings(input: Vec<String>) -> (r: Vec<String>)
    ensures
        sorted_lex(views_of(r@)),
        views_of(r@).to_multiset() == views_of(input@).to_multiset(),
{
    broadcast use vstd::seq_lib::group_to_multiset_ensures;
    broadcast use vstd::multiset::group_multiset_axioms;

    let mut rest = input;
    let ghost input_ms = views_of(rest@).to_multiset();
    let mut out: Vec<String> = Vec::new();
    proof {
        assert(views_of(out@) =~= Seq::<Seq<char>>::empty());
        lemma_to_multiset_empty(views_of(out@));
        assert(views_of(out@).to_multiset().add(views_of(rest@).to_multiset()) =~= input_ms);
    }
    while rest.len() > 0
        invariant
            sorted_lex(views_of(out@)),
            views_of(out@).to_multiset().add(views_of(rest@).to_multiset()) =~= input_ms,
        decreases rest@.len(),
    {
        let ghost rpre = views_of(rest@);
        proof {
            assert(rpre.len() == rest@.len());
        }
        let x = rest.pop().unwrap();
        proof {
            assert(rpre.len() > 0);
            assert(views_of(rest@) =~= rpre.drop_last());
            assert(rpre.drop_last() =~= rpre.remove(rpre.len() - 1));
            vstd::seq_lib::to_multiset_remove(rpre, rpre.len() - 1);
            assert(rpre[rpre.len() - 1] == x@);
            assert(rpre.contains(x@)) by {
                assert(rpre[rpre.len() - 1] == x@);
            }
            rpre.to_multiset_ensures();
            assert(rpre.to_multiset().count(x@) > 0);
        }
        let xc = chars_of(x.as_str());
        let p = insertion_point(&out, &xc);
        let ghost opre = views_of(out@);
        let ghost pp = p as int;
        out.insert(p, x);
        proof {
            assert(views_of(out@) =~= opre.insert(pp, x@));
            vstd::seq_lib::to_multiset_insert(opre, pp, x@);
            assert(views_of(out@).to_multiset() =~= opre.to_multiset().insert(x@));
            assert(views_of(out@).to_multiset().add(views_of(rest@).to_multiset())
                =~= input_ms);
            if pp < opre.len() {
                lemma_lex_le_total(opre[pp], x@);
            }
            assert forall|i: int, j: int|
                0 <= i < j < views_of(out@).len() implies lex_le(
                #[trigger] views_of(out@)[i],
                #[trigger] views_of(out@)[j],
            ) by {
                let v = views_of(out@);
                if j < pp {
                } else if i > pp {
                    assert(v[i] == opre[i - 1] && v[j] == opre[j - 1]);
                } else if i == pp {
                    assert(v[i] == x@ && v[j] == opre[j - 1]);
                    assert(lex_le(x@, opre[pp]));
                    if pp < j - 1 {
                        assert(lex_le(opre[pp], opre[j - 1]));
                        lemma_lex_le_trans(x@, opre[pp], opre[j - 1]);
                    }
                } else if j == pp {
                    assert(v[i] == opre[i] && v[j] == x@);
                } else {
                    assert(v[i] == opre[i] && v[j] == opre[j - 1]);
                    assert(i < j - 1);
                    assert(lex_le(opre[i], opre[j - 1]));
                }
            }
        }
    }
    proof {
        assert(views_of(rest@) =~= Seq::<Seq<char>>::empty());
        lemma_to_multiset_empty(views_of(rest@));
        assert(views_of(out@).to_multiset() =~= input_ms);
    }
    out
}

// ---------------------------------------------------------------------------
// Prefix tests and substitution
// ---------------------------------------------------------------------------

/// The first `end` characters of `xs`, as a fresh vector.
pub fn copy_chars(xs: &Vec<char>, end: usize) -> (r: Vec<char>)
    requires
        end <= xs@.len(),
    ensures
        r@ == xs@.subrange(0, end as int),
{
    let mut r: Vec<char> = Vec::new();
    let mut k: usize = 0;
    while k < end
        invariant
            k <= end <= xs@.len(),
            r@ == xs@.subrange(0, k as int),
        decreases end - k,
    {
        r.push(xs[k]);
        proof {
            assert(xs@.subrange(0, k + 1 as int) =~= xs@.subrange(0, k as int).push(
                xs@[k as int],
            ));
        }
        k = k + 1;
    }
    r
}

/// The characters of `xs` between `from` and `to`, as a fresh vector.
pub fn copy_range(xs: &Vec<char>, from: usize, to: usize) -> (r: Vec<char>)
    requires
        from <= to <= xs@.len(),
    ensures
        r@ == xs@.subrange(from as int, to as int),
{
    let mut r: Vec<char> = Vec::new();
    let mut k: usize = from;
    while k < to
        invariant
            from <= k <= to <= xs@.len(),
            r@ == xs@.subrange(from as int, k as int),
        decreases to - k,
    {
        r.push(xs[k]);
        proof {
            assert(xs@.subrange(from as int, k + 1 as int) =~= xs@.subrange(
                from as int,
                k as int,
            ).push(xs@[k as int]));
        }
        k = k + 1;
    }
    r
}

/// Appends all characters of `xs` to `out`.
pub fn push_all(out: &mut Vec<char>, xs: &Vec<char>)
    ensures
        final(out)@ == old(out)@ + xs@,
{
    let ghost base = out@;
    let mut k: usize = 0;
    while k < xs.len()
        invariant
            k <= xs@.len(),
            out@ == base + xs@.subrange(0, k as int),
        decreases xs@.len() - k,
    {
        out.push(xs[k]);
        proof {
            assert(xs@.subrange(0, k + 1 as int) =~= xs@.subrange(0, k as int).push(
                xs@[k as int],
            ));
            assert(out@ =~= base + xs@.subrange(0, k + 1 as int));
        }
        k = k + 1;
    }
    proof {
        assert(xs@.subrange(0, xs@.len() as int) =~= xs@);
    }
}

/// True exactly when `pat` occurs in `s` starting at `i`.
pub fn matches_at(s: &Vec<char>, i: usize, pat: &Vec<char>) -> (r: bool)
    requires
        i <= s@.len(),
    ensures
        r == (i + pat@.len() <= s@.len() && s@.subrange(i as int, i + pat@.len()) == pat@),
{
    if pat.len() > s.len() - i {
        return false;
    }
    let mut j: usize = 0;
    while j < pat.len()
        invariant
            j <= pat@.len(),
            i + pat@.len() <= s@.len(),
            s@.len() <= usize::MAX,
            forall|k: int| 0 <= k < j ==> s@[i + k] == pat@[k],
        decreases pat@.len() - j,
    {
        if s[i + j] != pat[j] {
            proof {
                assert(s@.subrange(i as int, i + pat@.len())[j as int] != pat@[j as int]);
            }
            return false;
        }
        j = j + 1;
    }
    proof {
        assert(s@.subrange(i as int, i + pat@.len()) =~= pat@);
    }
    true
}

/// True exactly when `pat@` is a prefix of `s@`.
pub fn has_prefix(s: &Vec<char>, pat: &Vec<char>) -> (r: bool)
    ensures
        r == (pat@.len() <= s@.len() && s@.subrange(0, pat@.len() as int) == pat@),
{
    matches_at(s, 0, pat)
}

/// True exactly when `pre@` is a prefix of `s@`, on string slices.
pub fn str_has_prefix(s: &str, pre: &str) -> (r: bool)
    ensures
        r == (pre@.len() <= s@.len() && s@.subrange(0, pre@.len() as int) == pre@),
{
    let cs = chars_of(s);
    let ps = chars_of(pre);
    has_prefix(&cs, &ps)
}

/// `s` with every occurrence of `pat` replaced by `rep`, scanning left to
/// right over non-overlapping occurrences.
pub open spec fn replace_seq(s: Seq<char>, pat: Seq<char>, rep: Seq<char>) -> Seq<char>
    recommends
        pat.len() > 0,
    decreases s.len(),
{
    if s.len() < pat.len() || pat.len() == 0 {
        s
    } else if s.subrange(0, pat.len() as int) == pat {
        rep + replace_seq(s.subrange(pat.len() as int, s.len() as int), pat, rep)
    } else {
        seq![s[0]] + replace_seq(s.drop_first(), pat, rep)
    }
}

/// Replaces every occurrence of `pat` in `s` by `rep`.
pub fn replace_all(s: &str, pat: &str, rep: &str) -> (r: String)
    requires
        pat@.len() > 0,
    ensures
        r@ == replace_seq(s@, pat@, rep@),
{
    let cs = chars_of(s);
    let ps = chars_of(pat);
    let rs = chars_of(rep);
    let mut out: Vec<char> = Vec::new();
    let mut i: usize = 0;
    proof {
        assert(s@.subrange(0, s@.len() as int) =~= s@);
        assert(out@ + replace_seq(s@, pat@, rep@) =~= replace_seq(s@, pat@, rep@));
    }
    while i < cs.len()
        invariant
            i <= cs@.len(),
            cs@ == s@ && ps@ == pat@ && rs@ == rep@,
            pat@.len() > 0,
            replace_seq(s@, pat@, rep@) == out@ + replace_seq(
                s@.subrange(i as int, s@.len() as int),
                pat@,
                rep@,
            ),
        decreases cs@.len() - i,
    {
        let ghost tail = s@.subrange(i as int, s@.len() as int);
        if matches_at(&cs, i, &ps) {
            proof {
                assert(tail.subrange(0, pat@.len() as int) =~= s@.subrange(
                    i as int,
                    i + pat@.len(),
                ));
                assert(tail.subrange(pat@.len() as int, tail.len() as int) =~= s@.subrange(
                    i + pat@.len(),
                    s@.len() as int,
                ));
                assert(replace_seq(tail, pat@, rep@) == rep@ + replace_seq(
                    s@.subrange(i + pat@.len(), s@.len() as int),
                    pat@,
                    rep@,
                ));
            }
            push_all(&mut out, &rs);
            proof {
                assert(out@ + replace_seq(s@.subrange(i + pat@.len(), s@.len() as int), pat@, rep@)
                    =~= replace_seq(s@, pat@, rep@));
            }
            i = i + ps.len();
        } else {
            proof {
                if tail.len() >= pat@.len() {
                    assert(tail.subrange(0, pat@.len() as int) =~= s@.subrange(
                        i as int,
                        i + pat@.len(),
                    ));
                }
                assert(tail.drop_first() =~= s@.subrange(i + 1 as int, s@.len() as int));
                assert(replace_seq(tail, pat@, rep@) == seq![tail[0]] + replace_seq(
                    tail.drop_first(),
                    pat@,
                    rep@,
                ));
            }
            out.push(cs[i]);
            proof {
                assert(out@ + replace_seq(s@.subrange(i + 1 as int, s@.len() as int), pat@, rep@)
                    =~= replace_seq(s@, pat@, rep@));
            }
            i = i + 1;
        }
    }
    proof {
        assert(s@.subrange(s@.len() as int, s@.len() as int) =~= Seq::<char>::empty());
        assert(out@ + Seq::<char>::empty() =~= out@);
    }
    string_from_chars(&out)
}

} // verus!
