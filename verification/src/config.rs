//! Decoding of the declarative configuration tree.
//!
//! The document's root is `<expr>` with a single `<attrs>` child; values are
//! `<string value="..">`, `<int value="..">`, `<bool value="..">`, `<list>`
//! of typed children, or nested `<attrs>`.

use vstd::prelude::*;
use vstd::string::StrSliceExecFns;
use vstd::string::StringExecFns;
use crate::strings::{str_eq, chars_of, parse_uint, is_uint_literal, uint_val};
use crate::xml::{
    XmlNode,
    key_node,
    node_value,
    first_element,
    lookup_key,
    value_of,
    first_element_child,
    attr_value,
    is_element,
    attr_of,
};

verus! {

/// A fault in the configuration document or in the values it names.
#[derive(Debug)]
pub enum Error {
    UnexpectedTag { expected: String, found: String },
    ValueAttrNotFound,
    InvalidInt(String),
    KeyNotFound { key: String },
    InvalidHashedPassword { hash: String, user: String },
    PasswordNotFound { user: String },
    InvalidFsIdentifier(String),
    RootIsNotExpr,
    RootExprIsEmpty,
    Io(String),
}

/// The single-line rendering of each error.
pub open spec fn message_of(e: Error) -> Seq<char> {
    match e {
        Error::UnexpectedTag { expected, found } => "Found unexpected tag "@ + found@
            + ", expecting "@ + expected@,
        Error::ValueAttrNotFound => "`value` attribute not found"@,
        Error::InvalidInt(s) => "Invalid integer: "@ + s@,
        Error::KeyNotFound { key } => "Key "@ + key@ + " not found in attrs"@,
        Error::InvalidHashedPassword { hash, user } => "Invalid hashed password for user "@ + user@
            + ": "@ + hash@ + " - hashes should always start with `grub.pbkdf2.`"@,
        Error::PasswordNotFound { user } => "Password not found for user "@ + user@ + "!"@,
        Error::InvalidFsIdentifier(id) => "Invalid file system identifier: "@ + id@,
        Error::RootIsNotExpr => "Root node of config is not <expr>"@,
        Error::RootExprIsEmpty => "Root <expr> is empty"@,
        Error::Io(m) => "IO Error: "@ + m@,
    }
}

impl Error {
    /// The error as a single line of text.
    pub fn message(&self) -> (r: String)
        ensures
            r@ == message_of(*self),
    {
        match self {
            Error::UnexpectedTag { expected, found } => {
                let mut s = String::from_str("Found unexpected tag ");
                s.append(found.as_str());
                s.append(", expecting ");
                s.append(expected.as_str());
                s
            },
            Error::ValueAttrNotFound => String::from_str("`value` attribute not found"),
            Error::InvalidInt(t) => {
                let mut s = String::from_str("Invalid integer: ");
                s.append(t.as_str());
                s
            },
            Error::KeyNotFound { key } => {
                let mut s = String::from_str("Key ");
                s.append(key.as_str());
                s.append(" not found in attrs");
                s
            },
            Error::InvalidHashedPassword { hash, user } => {
                let mut s = String::from_str("Invalid hashed password for user ");
                s.append(user.as_str());
                s.append(": ");
                s.append(hash.as_str());
                s.append(" - hashes should always start with `grub.pbkdf2.`");
                s
            },
            Error::PasswordNotFound { user } => {
                let mut s = String::from_str("Password not found for user ");
                s.append(user.as_str());
                s.append("!");
                s
            },
            Error::InvalidFsIdentifier(id) => {
                let mut s = String::from_str("Invalid file system identifier: ");
                s.append(id.as_str());
                s
            },
            Error::RootIsNotExpr => String::from_str("Root node of config is not <expr>"),
            Error::RootExprIsEmpty => String::from_str("Root <expr> is empty"),
            Error::Io(m) => {
                let mut s = String::from_str("IO Error: ");
                s.append(m.as_str());
                s
            },
        }
    }
}

// ---------------------------------------------------------------------------
// Value decoders
// ---------------------------------------------------------------------------

/// Decodes the value node `n` as a `<string>`.
pub fn decode_str(n: &XmlNode) -> (r: Result<String, Error>)
    ensures
        match r {
            Ok(v) => n.tag@ == "string"@ && node_value(*n) == Some(v@),
            Err(e) => {
                ||| {
                    &&& n.tag@ != "string"@
                    &&& e matches Error::UnexpectedTag { expected, found }
                    &&& expected@ == "string"@
                    &&& found@ == n.tag@
                }
                ||| {
                    &&& n.tag@ == "string"@
                    &&& node_value(*n) is None
                    &&& e is ValueAttrNotFound
                }
            },
        },
{
    if !str_eq(n.tag.as_str(), "string") {
        return Err(
            Error::UnexpectedTag { expected: String::from_str("string"), found: n.tag.clone() },
        );
    }
    match value_of(n) {
        Some(v) => Ok(v.clone()),
        None => Err(Error::ValueAttrNotFound),
    }
}

/// Decodes `n` as an optional string: the empty string stands for "absent".
pub fn decode_opt_str(n: &XmlNode) -> (r: Result<Option<String>, Error>)
    ensures
        match r {
            Ok(o) => n.tag@ == "string"@ && match o {
                Some(v) => node_value(*n) == Some(v@) && v@.len() > 0,
                None => {
                    &&& node_value(*n) matches Some(w)
                    &&& w.len() == 0
                },
            },
            Err(e) => {
                ||| {
                    &&& n.tag@ != "string"@
                    &&& e matches Error::UnexpectedTag { expected, found }
                    &&& expected@ == "string"@
                    &&& found@ == n.tag@
                }
                ||| {
                    &&& n.tag@ == "string"@
                    &&& node_value(*n) is None
                    &&& e is ValueAttrNotFound
                }
            },
        },
{
    let s = decode_str(n)?;
    if s.as_str().unicode_len() == 0 {
        Ok(None)
    } else {
        Ok(Some(s))
    }
}

/// Decodes the value node `n` as a `<bool>`; the value is `true` exactly
/// when the attribute text is `true`.
pub fn decode_bool(n: &XmlNode) -> (r: Result<bool, Error>)
    ensures
        match r {
            Ok(b) => {
                &&& n.tag@ == "bool"@
                &&& node_value(*n) matches Some(v)
                &&& b == (v == "true"@)
            },
            Err(e) => {
                ||| {
                    &&& n.tag@ != "bool"@
                    &&& e matches Error::UnexpectedTag { expected, found }
                    &&& expected@ == "bool"@
                    &&& found@ == n.tag@
                }
                ||| {
                    &&& n.tag@ == "bool"@
                    &&& node_value(*n) is None
                    &&& e is ValueAttrNotFound
                }
            },
        },
{
    if !str_eq(n.tag.as_str(), "bool") {
        return Err(
            Error::UnexpectedTag { expected: String::from_str("bool"), found: n.tag.clone() },
        );
    }
    match value_of(n) {
        Some(v) => Ok(str_eq(v.as_str(), "true")),
        None => Err(Error::ValueAttrNotFound),
    }
}

/// Decodes the value node `n` as an `<int>` that fits in a `u64`: base ten,
/// an optional leading `+`, overflow rejected.
pub fn decode_u64(n: &XmlNode) -> (r: Result<u64, Error>)
    ensures
        match r {
            Ok(v) => {
                &&& n.tag@ == "int"@
                &&& node_value(*n) matches Some(s)
                &&& is_uint_literal(s)
                &&& uint_val(s) == v
            },
            Err(e) => {
                ||| {
                    &&& n.tag@ != "int"@
                    &&& e matches Error::UnexpectedTag { expected, found }
                    &&& expected@ == "int"@
                    &&& found@ == n.tag@
                }
                ||| {
                    &&& n.tag@ == "int"@
                    &&& node_value(*n) is None
                    &&& e is ValueAttrNotFound
                }
                ||| {
                    &&& n.tag@ == "int"@
                    &&& node_value(*n) matches Some(s)
                    &&& !is_uint_literal(s) || uint_val(s) > u64::MAX
                    &&& e matches Error::InvalidInt(t)
                    &&& t@ == s
                }
            },
        },
{
    if !str_eq(n.tag.as_str(), "int") {
        return Err(
            Error::UnexpectedTag { expected: String::from_str("int"), found: n.tag.clone() },
        );
    }
    match value_of(n) {
        Some(v) => {
            let cs = chars_of(v.as_str());
            match parse_uint(&cs) {
                Some(x) => Ok(x),
                None => Err(Error::InvalidInt(v.clone())),
            }
        },
        None => Err(Error::ValueAttrNotFound),
    }
}

/// Decodes `n` as an `<int>` that fits in a `u32`.
pub fn decode_u32(n: &XmlNode) -> (r: Result<u32, Error>)
    ensures
        match r {
            Ok(v) => {
                &&& n.tag@ == "int"@
                &&& node_value(*n) matches Some(s)
                &&& is_uint_literal(s)
                &&& uint_val(s) == v
            },
            Err(e) => {
                ||| {
                    &&& n.tag@ != "int"@
                    &&& e matches Error::UnexpectedTag { expected, found }
                    &&& expected@ == "int"@
                    &&& found@ == n.tag@
                }
                ||| {
                    &&& n.tag@ == "int"@
                    &&& node_value(*n) is None
                    &&& e is ValueAttrNotFound
                }
                ||| {
                    &&& n.tag@ == "int"@
                    &&& node_value(*n) matches Some(s)
                    &&& !is_uint_literal(s) || uint_val(s) > u32::MAX
                    &&& e matches Error::InvalidInt(t)
                    &&& t@ == s
                }
            },
        },
{
    let v = decode_u64(n)?;
    if v > u32::MAX as u64 {
        match value_of(n) {
            Some(t) => Err(Error::InvalidInt(t.clone())),
            None => Err(Error::ValueAttrNotFound),
        }
    } else {
        Ok(v as u32)
    }
}

/// Decodes `n` as an `<int>` that fits in a `usize`.
pub fn decode_usize(n: &XmlNode) -> (r: Result<usize, Error>)
    ensures
        match r {
            Ok(v) => {
                &&& n.tag@ == "int"@
                &&& node_value(*n) matches Some(s)
                &&& is_uint_literal(s)
                &&& uint_val(s) == v
            },
            Err(e) => {
                ||| {
                    &&& n.tag@ != "int"@
                    &&& e matches Error::UnexpectedTag { expected, found }
                    &&& expected@ == "int"@
                    &&& found@ == n.tag@
                }
                ||| {
                    &&& n.tag@ == "int"@
                    &&& node_value(*n) is None
                    &&& e is ValueAttrNotFound
                }
                ||| {
                    &&& n.tag@ == "int"@
                    &&& node_value(*n) matches Some(s)
                    &&& !is_uint_literal(s) || uint_val(s) > usize::MAX
                    &&& e matches Error::InvalidInt(t)
                    &&& t@ == s
                }
            },
        },
{
    let v = decode_u64(n)?;
    if v > usize::MAX as u64 {
        match value_of(n) {
            Some(t) => Err(Error::InvalidInt(t.clone())),
            None => Err(Error::ValueAttrNotFound),
        }
    } else {
        Ok(v as usize)
    }
}

// ---------------------------------------------------------------------------
// Lists
// ---------------------------------------------------------------------------

/// The element children of a node, in document order.
pub open spec fn elem_seq(children: Seq<XmlNode>) -> Seq<XmlNode>
    decreases children.len(),
{
    if children.len() == 0 {
        Seq::<XmlNode>::empty()
    } else if is_element(children[0]) {
        seq![children[0]] + elem_seq(children.drop_first())
    } else {
        elem_seq(children.drop_first())
    }
}

/// The `value` attribute of a node, empty when absent.
pub open spec fn val_of(n: XmlNode) -> Seq<char> {
    match node_value(n) {
        Some(v) => v,
        None => Seq::<char>::empty(),
    }
}

/// Whether `n` is a `<list>` whose element children are all `<string>`s
/// with a value.
pub open spec fn list_ok(n: XmlNode) -> bool {
    &&& n.tag@ == "list"@
    &&& forall|k: int|
        0 <= k < elem_seq(n.children@).len() ==> (#[trigger] elem_seq(n.children@)[k]).tag@
            == "string"@ && node_value(elem_seq(n.children@)[k]) is Some
}

/// The string values of a `<list>` of `<string>`s.
pub open spec fn list_vals(n: XmlNode) -> Seq<Seq<char>> {
    elem_seq(n.children@).map_values(|c: XmlNode| val_of(c))
}

/// Decodes the value node `n` as a `<list>` of `<string>`s.
pub fn decode_list_str(n: &XmlNode) -> (r: Result<Vec<String>, Error>)
    ensures
        match r {
            Ok(vs) => list_ok(*n) && vs@.map_values(|s: String| s@) == list_vals(*n),
            Err(e) => !list_ok(*n),
        },
{
    if !str_eq(n.tag.as_str(), "list") {
        return Err(
            Error::UnexpectedTag { expected: String::from_str("list"), found: n.tag.clone() },
        );
    }
    let ghost cs = n.children@;
    let mut out: Vec<String> = Vec::new();
    let ghost mut done: Seq<XmlNode> = Seq::<XmlNode>::empty();
    let mut i: usize = 0;
    proof {
        assert(cs.subrange(0, cs.len() as int) =~= cs);
        assert(done + elem_seq(cs) =~= elem_seq(cs));
    }
    while i < n.children.len()
        invariant
            i <= cs.len(),
            cs == n.children@,
            n.tag@ == "list"@,
            elem_seq(cs) =~= done + elem_seq(cs.subrange(i as int, cs.len() as int)),
            forall|k: int|
                0 <= k < done.len() ==> (#[trigger] done[k]).tag@ == "string"@ && node_value(
                    done[k],
                ) is Some,
            out@.map_values(|s: String| s@) =~= done.map_values(|c: XmlNode| val_of(c)),
        decreases cs.len() - i,
    {
        let ghost tail = cs.subrange(i as int, cs.len() as int);
        proof {
            assert(tail[0] == cs[i as int]);
            assert(tail.drop_first() =~= cs.subrange(i + 1 as int, cs.len() as int));
        }
        let child = &n.children[i];
        if child.tag.as_str().unicode_len() > 0 {
            proof {
                assert(elem_seq(tail) =~= seq![tail[0]] + elem_seq(tail.drop_first()));
            }
            match decode_str(child) {
                Ok(v) => {
                    let ghost opre = out@;
                    let ghost done0 = done;
                    out.push(v);
                    proof {
                        done = done.push(*child);
                        assert(opre.map_values(|s: String| s@).len() == opre.len());
                        assert(done0.map_values(|c: XmlNode| val_of(c)).len() == done0.len());
                        assert(opre.len() == done0.len());
                        assert forall|j: int| 0 <= j < done.len() implies #[trigger] out@[j]@
                            == val_of(done[j]) by {
                            if j < done0.len() {
                                assert(opre.map_values(|s: String| s@)[j] == opre[j]@);
                                assert(done0.map_values(|c: XmlNode| val_of(c))[j] == val_of(
                                    done0[j],
                                ));
                            }
                        }
                        assert(out@.map_values(|s: String| s@) =~= done.map_values(
                            |c: XmlNode| val_of(c),
                        ));
                        assert(elem_seq(cs) =~= done + elem_seq(
                            cs.subrange(i + 1 as int, cs.len() as int),
                        ));
                    }
                },
                Err(e) => {
                    proof {
                        assert(elem_seq(cs)[done.len() as int] == *child);
                        assert(!list_ok(*n));
                    }
                    return Err(e);
                },
            }
        } else {
            proof {
                assert(elem_seq(tail) =~= elem_seq(tail.drop_first()));
            }
        }
        i = i + 1;
    }
    proof {
        assert(cs.subrange(cs.len() as int, cs.len() as int) =~= Seq::<XmlNode>::empty());
        assert(elem_seq(Seq::<XmlNode>::empty()) =~= Seq::<XmlNode>::empty());
        assert(elem_seq(cs) =~= done);
    }
    Ok(out)
}

// ---------------------------------------------------------------------------
// Users and passwords
// ---------------------------------------------------------------------------

/// A user's boot-menu password: passed through verbatim (plain) or a
/// `grub.pbkdf2.`-prefixed hash.
#[derive(Debug, Clone)]
pub enum Password {
    Plain(String),
    Hashed(String),
}

/// The users of the boot menu, with their passwords, in document order.
#[derive(Debug, Clone)]
pub struct Users(pub Vec<(String, Password)>);

/// Where a user's password comes from: given inline, or read from a file.
#[derive(Debug, Clone)]
pub enum PasswordSource {
    HashedFile(String),
    HashedText(String),
    PlainFile(String),
    PlainText(String),
}

/// The key node bound to `key` under `a`, when it is a `<string>` with a
/// value.
pub open spec fn sdec_str(a: XmlNode, key: Seq<char>) -> Option<Seq<char>> {
    match key_node(a, key) {
        Some(v) => if v.tag@ == "string"@ {
            node_value(v)
        } else {
            None
        },
        None => None,
    }
}

/// The `(name, value node)` pairs of the well-formed `<attr>` children.
pub open spec fn user_entries(children: Seq<XmlNode>) -> Seq<(Seq<char>, XmlNode)>
    decreases children.len(),
{
    if children.len() == 0 {
        Seq::<(Seq<char>, XmlNode)>::empty()
    } else {
        let rest = user_entries(children.drop_first());
        let c = children[0];
        if c.tag@ == "attr"@ {
            match (attr_of(c.attrs@, "name"@), first_element(c.children@)) {
                (Some(nm), Some(v)) => seq![(nm, v)] + rest,
                _ => rest,
            }
        } else {
            rest
        }
    }
}

/// Which password source a user's field set selects: the first non-failing
/// decode, in the order hashed file, hashed text, plain file, plain text.
pub open spec fn source_of_fields(fields: XmlNode, s: PasswordSource) -> bool {
    match s {
        PasswordSource::HashedFile(p) => sdec_str(fields, "hashedPasswordFile"@) == Some(p@),
        PasswordSource::HashedText(h) => {
            &&& sdec_str(fields, "hashedPasswordFile"@) is None
            &&& sdec_str(fields, "hashedPassword"@) == Some(h@)
        },
        PasswordSource::PlainFile(p) => {
            &&& sdec_str(fields, "hashedPasswordFile"@) is None
            &&& sdec_str(fields, "hashedPassword"@) is None
            &&& sdec_str(fields, "passwordFile"@) == Some(p@)
        },
        PasswordSource::PlainText(t) => {
            &&& sdec_str(fields, "hashedPasswordFile"@) is None
            &&& sdec_str(fields, "hashedPassword"@) is None
            &&& sdec_str(fields, "passwordFile"@) is None
            &&& sdec_str(fields, "password"@) == Some(t@)
        },
    }
}

/// Whether a user's field set names any password source at all.
pub open spec fn has_source(fields: XmlNode) -> bool {
    ||| sdec_str(fields, "hashedPasswordFile"@) is Some
    ||| sdec_str(fields, "hashedPassword"@) is Some
    ||| sdec_str(fields, "passwordFile"@) is Some
    ||| sdec_str(fields, "password"@) is Some
}

/// Looks `key` up under `a` and decodes it as a string, or gives `None` on
/// any failure.
fn sget(a: &XmlNode, key: &str) -> (r: Option<String>)
    ensures
        match r {
            Some(v) => sdec_str(*a, key@) == Some(v@),
            None => sdec_str(*a, key@) is None,
        },
{
    match lookup_key(a, key) {
        Some(n) => {
            if !str_eq(n.tag.as_str(), "string") {
                return None;
            }
            match value_of(n) {
                Some(v) => Some(v.clone()),
                None => None,
            }
        },
        None => None,
    }
}

/// Reads the user list out of the `<attrs>` node bound to `users`: each
/// child names a user, whose own `<attrs>` select the password source.
pub fn users_sources(users_node: &XmlNode) -> (r: Result<Vec<(String, PasswordSource)>, Error>)
    ensures
        match r {
            Ok(list) => {
                let ue = user_entries(users_node.children@);
                &&& users_node.tag@ == "attrs"@
                &&& list@.len() == ue.len()
                &&& forall|k: int|
                    0 <= k < ue.len() ==> (#[trigger] list@[k]).0@ == ue[k].0 && ue[k].1.tag@
                        == "attrs"@ && source_of_fields(ue[k].1, list@[k].1)
            },
            Err(e) => {
                ||| {
                    &&& users_node.tag@ != "attrs"@
                    &&& e matches Error::UnexpectedTag { expected, found }
                    &&& expected@ == "attrs"@
                    &&& found@ == users_node.tag@
                }
                ||| {
                    let ue = user_entries(users_node.children@);
                    &&& users_node.tag@ == "attrs"@
                    &&& exists|k: int|
                        0 <= k < ue.len() && ((#[trigger] ue[k]).1.tag@ != "attrs"@ || (ue[k].1.tag@
                            == "attrs"@ && !has_source(ue[k].1)))
                }
            },
        },
{
    if !str_eq(users_node.tag.as_str(), "attrs") {
        return Err(
            Error::UnexpectedTag {
                expected: String::from_str("attrs"),
                found: users_node.tag.clone(),
            },
        );
    }
    let ghost cs = users_node.children@;
    let mut out: Vec<(String, PasswordSource)> = Vec::new();
    let ghost mut done: Seq<(Seq<char>, XmlNode)> = Seq::<(Seq<char>, XmlNode)>::empty();
    let mut i: usize = 0;
    proof {
        assert(cs.subrange(0, cs.len() as int) =~= cs);
        assert(done + user_entries(cs) =~= user_entries(cs));
    }
    while i < users_node.children.len()
        invariant
            i <= cs.len(),
            cs == users_node.children@,
            users_node.tag@ == "attrs"@,
            user_entries(cs) =~= done + user_entries(cs.subrange(i as int, cs.len() as int)),
            out@.len() == done.len(),
            forall|k: int|
                0 <= k < done.len() ==> (#[trigger] out@[k]).0@ == done[k].0 && done[k].1.tag@
                    == "attrs"@ && source_of_fields(done[k].1, out@[k].1),
        decreases cs.len() - i,
    {
        let ghost tail = cs.subrange(i as int, cs.len() as int);
        proof {
            assert(tail[0] == cs[i as int]);
            assert(tail.drop_first() =~= cs.subrange(i + 1 as int, cs.len() as int));
        }
        let child = &users_node.children[i];
        if str_eq(child.tag.as_str(), "attr") {
            let name: Option<&String> = attr_value(child, "name");
            let fields: Option<&XmlNode> = first_element_child(child);
            match (name, fields) {
                (Some(user), Some(f)) => {
                    proof {
                        assert(user_entries(tail) =~= seq![(user@, *f)] + user_entries(
                            tail.drop_first(),
                        ));
                    }
                    if !str_eq(f.tag.as_str(), "attrs") {
                        proof {
                            assert(user_entries(cs)[done.len() as int] == (user@, *f));
                        }
                        return Err(
                            Error::UnexpectedTag {
                                expected: String::from_str("attrs"),
                                found: f.tag.clone(),
                            },
                        );
                    }
                    let src: PasswordSource = if let Some(p) = sget(f, "hashedPasswordFile") {
                        PasswordSource::HashedFile(p)
                    } else if let Some(h) = sget(f, "hashedPassword") {
                        PasswordSource::HashedText(h)
                    } else if let Some(p) = sget(f, "passwordFile") {
                        PasswordSource::PlainFile(p)
                    } else if let Some(t) = sget(f, "password") {
                        PasswordSource::PlainText(t)
                    } else {
                        proof {
                            assert(user_entries(cs)[done.len() as int] == (user@, *f));
                            assert(!has_source(*f));
                        }
                        return Err(Error::PasswordNotFound { user: user.clone() });
                    };
                    out.push((user.clone(), src));
                    proof {
                        done = done.push((user@, *f));
                        assert(user_entries(cs) =~= done + user_entries(
                            cs.subrange(i + 1 as int, cs.len() as int),
                        ));
                    }
                },
                _ => {
                    proof {
                        assert(user_entries(tail) =~= user_entries(tail.drop_first()));
                    }
                },
            }
        } else {
            proof {
                assert(user_entries(tail) =~= user_entries(tail.drop_first()));
            }
        }
        i = i + 1;
    }
    proof {
        assert(cs.subrange(cs.len() as int, cs.len() as int) =~= Seq::<XmlNode>::empty());
        assert(user_entries(cs) =~= done);
    }
    Ok(out)
}

/// Whether `pre` is a prefix of `s`.
pub open spec fn is_prefix(pre: Seq<char>, s: Seq<char>) -> bool {
    pre.len() <= s.len() && s.subrange(0, pre.len() as int) == pre
}

/// Whether a source resolves cleanly against the file text read for it
/// (`None` when no file could be read): hashes must carry the
/// `grub.pbkdf2.` prefix, file-based sources need their file.
pub open spec fn resolve_ok_at(s: PasswordSource, f: Option<String>) -> bool {
    match s {
        PasswordSource::HashedFile(_) => {
            &&& f matches Some(t)
            &&& is_prefix("grub.pbkdf2."@, t@)
        },
        PasswordSource::HashedText(h) => is_prefix("grub.pbkdf2."@, h@),
        PasswordSource::PlainFile(_) => f is Some,
        PasswordSource::PlainText(_) => true,
    }
}

/// The password a source resolves to.
pub open spec fn resolved_to(s: PasswordSource, f: Option<String>, p: Password) -> bool {
    match s {
        PasswordSource::HashedFile(_) => {
            &&& f matches Some(t)
            &&& p matches Password::Hashed(h)
            &&& h@ == t@
        },
        PasswordSource::HashedText(h0) => {
            &&& p matches Password::Hashed(h)
            &&& h@ == h0@
        },
        PasswordSource::PlainFile(_) => {
            &&& f matches Some(t)
            &&& p matches Password::Plain(q)
            &&& q@ == t@
        },
        PasswordSource::PlainText(t0) => {
            &&& p matches Password::Plain(q)
            &&& q@ == t0@
        },
    }
}

/// Every hashed password in `u` carries the `grub.pbkdf2.` prefix.
pub open spec fn users_wf(u: Users) -> bool {
    forall|i: int|
        0 <= i < u.0@.len() ==> ((#[trigger] u.0@[i]).1 matches Password::Hashed(h) ==> is_prefix(
            "grub.pbkdf2."@,
            h@,
        ))
}

/// Resolves each user's password source against the file contents read for
/// it (`files[i]` belongs to `sources[i]`; `None` stands for a failed
/// read).  Hashed values must start with `grub.pbkdf2.`.
pub fn resolve_users(sources: &Vec<(String, PasswordSource)>, files: &Vec<Option<String>>) -> (r:
    Result<Users, Error>)
    requires
        sources@.len() == files@.len(),
    ensures
        match r {
            Ok(u) => {
                &&& forall|i: int|
                    0 <= i < sources@.len() ==> resolve_ok_at(
                        (#[trigger] sources@[i]).1,
                        files@[i],
                    )
                &&& u.0@.len() == sources@.len()
                &&& forall|i: int|
                    0 <= i < sources@.len() ==> (#[trigger] u.0@[i]).0@ == sources@[i].0@
                        && resolved_to(sources@[i].1, files@[i], u.0@[i].1)
                &&& users_wf(u)
            },
            Err(e) => {
                &&& exists|i: int|
                    0 <= i < sources@.len() && !resolve_ok_at(
                        (#[trigger] sources@[i]).1,
                        files@[i],
                    )
                &&& (e is InvalidHashedPassword || e is Io)
            },
        },
{
    let mut out: Vec<(String, Password)> = Vec::new();
    let mut i: usize = 0;
    while i < sources.len()
        invariant
            i <= sources@.len(),
            sources@.len() == files@.len(),
            out@.len() == i,
            forall|k: int|
                0 <= k < i ==> resolve_ok_at((#[trigger] sources@[k]).1, files@[k]),
            forall|k: int|
                0 <= k < i ==> (#[trigger] out@[k]).0@ == sources@[k].0@ && resolved_to(
                    sources@[k].1,
                    files@[k],
                    out@[k].1,
                ),
        decreases sources@.len() - i,
    {
        let user: &String = &sources[i].0;
        let pw: Password = match &sources[i].1 {
            PasswordSource::HashedFile(_) => {
                match &files[i] {
                    Some(t) => {
                        if !crate::strings::str_has_prefix(t.as_str(), "grub.pbkdf2.") {
                            return Err(
                                Error::InvalidHashedPassword { hash: t.clone(), user: user.clone() },
                            );
                        }
                        Password::Hashed(t.clone())
                    },
                    None => {
                        return Err(Error::Io(String::from_str("could not read password file")));
                    },
                }
            },
            PasswordSource::HashedText(h) => {
                if !crate::strings::str_has_prefix(h.as_str(), "grub.pbkdf2.") {
                    return Err(
                        Error::InvalidHashedPassword { hash: h.clone(), user: user.clone() },
                    );
                }
                Password::Hashed(h.clone())
            },
            PasswordSource::PlainFile(_) => {
                match &files[i] {
                    Some(t) => Password::Plain(t.clone()),
                    None => {
                        return Err(Error::Io(String::from_str("could not read password file")));
                    },
                }
            },
            PasswordSource::PlainText(t) => Password::Plain(t.clone()),
        };
        out.push((user.clone(), pw));
        i = i + 1;
    }
    Ok(Users(out))
}

// ---------------------------------------------------------------------------
// The configuration record
// ---------------------------------------------------------------------------

use crate::grub::FsIdentifier;

/// The decoded declarative configuration.
#[derive(Debug)]
pub struct Config {
    pub grub: Option<String>,
    pub grub_target: Option<String>,
    pub grub_efi: Option<String>,
    pub grub_target_efi: Option<String>,
    pub extra_config: String,
    pub extra_prepare_config: String,
    pub extra_per_entry_config: Option<String>,
    pub extra_entries: String,
    pub extra_entries_before_nixos: bool,
    pub splash_image: Option<String>,
    pub splash_mode: Option<String>,
    pub background_color: Option<String>,
    pub entry_options: String,
    pub sub_entry_options: String,
    pub configuration_limit: usize,
    pub copy_kernels: bool,
    pub timeout: u32,
    pub timeout_style: String,
    pub default_entry: String,
    pub fs_identifier: FsIdentifier,
    pub boot_path: String,
    pub store_path: String,
    pub gfx_mode_efi: String,
    pub gfx_mode_bios: String,
    pub gfx_payload_efi: String,
    pub gfx_payload_bios: String,
    pub font: String,
    pub theme: Option<String>,
    pub shell: String,
    pub path: String,
    pub users: Users,
    pub use_os_prober: bool,
    pub can_touch_efi_variables: bool,
    pub efi_install_as_removable: bool,
    pub efi_sys_mount_point: String,
    pub bootloader_id: String,
    pub force_install: bool,
    pub devices: Vec<String>,
    pub extra_grub_install_args: Vec<String>,
    pub full_name: String,
    pub full_version: String,
}

/// The `<attrs>` node under the document root, when the root is `<expr>`.
pub open spec fn root_attrs(root: XmlNode) -> Option<XmlNode> {
    if root.tag@ == "expr"@ {
        first_element(root.children@)
    } else {
        None
    }
}

/// A key decoded as an optional string: present, with the empty value
/// standing for "absent".
pub open spec fn sdec_opt(a: XmlNode, key: Seq<char>) -> Option<Option<Seq<char>>> {
    match sdec_str(a, key) {
        Some(v) => Some(
            if v.len() == 0 {
                None
            } else {
                Some(v)
            },
        ),
        None => None,
    }
}

/// A key decoded as a boolean.
pub open spec fn sdec_bool(a: XmlNode, key: Seq<char>) -> Option<bool> {
    match key_node(a, key) {
        Some(v) => if v.tag@ == "bool"@ {
            match node_value(v) {
                Some(t) => Some(t == "true"@),
                None => None,
            }
        } else {
            None
        },
        None => None,
    }
}

/// A key decoded as an unsigned base-ten integer, unbounded.
pub open spec fn sdec_uint(a: XmlNode, key: Seq<char>) -> Option<nat> {
    match key_node(a, key) {
        Some(v) => if v.tag@ == "int"@ {
            match node_value(v) {
                Some(t) => if is_uint_literal(t) {
                    Some(uint_val(t))
                } else {
                    None
                },
                None => None,
            }
        } else {
            None
        },
        None => None,
    }
}

/// A key decoded as a list of strings.
pub open spec fn sdec_list(a: XmlNode, key: Seq<char>) -> Option<Seq<Seq<char>>> {
    match key_node(a, key) {
        Some(v) => if list_ok(v) {
            Some(list_vals(v))
        } else {
            None
        },
        None => None,
    }
}

/// The view of an optional string.
pub open spec fn opt_view(o: Option<String>) -> Option<Seq<char>> {
    match o {
        Some(s) => Some(s@),
        None => None,
    }
}

/// The `FsIdentifier` a value string selects.
pub open spec fn fs_ident_of(v: Seq<char>, f: FsIdentifier) -> bool {
    match f {
        FsIdentifier::Uuid => v == "uuid"@,
        FsIdentifier::Label => v == "label"@,
        FsIdentifier::Provided => v == "provided"@,
    }
}

/// Whether the whole document decodes: the root is `<expr>` holding an
/// `<attrs>`, and every configuration key below is present and well-shaped.
pub open spec fn config_ok(root: XmlNode) -> bool {
    &&& root_attrs(root) matches Some(a)
    &&& sdec_opt(a, "grub"@) is Some
    &&& sdec_opt(a, "grubTarget"@) is Some
    &&& sdec_opt(a, "grubEfi"@) is Some
    &&& sdec_opt(a, "grubTargetEfi"@) is Some
    &&& sdec_str(a, "extraConfig"@) is Some
    &&& sdec_str(a, "extraPrepareConfig"@) is Some
    &&& sdec_opt(a, "extraPerEntryConfig"@) is Some
    &&& sdec_str(a, "extraEntries"@) is Some
    &&& sdec_bool(a, "extraEntriesBeforeNixOS"@) is Some
    &&& sdec_opt(a, "splashImage"@) is Some
    &&& sdec_opt(a, "splashMode"@) is Some
    &&& sdec_opt(a, "backgroundColor"@) is Some
    &&& sdec_str(a, "entryOptions"@) is Some
    &&& sdec_str(a, "subEntryOptions"@) is Some
    &&& sdec_uint(a, "configurationLimit"@) matches Some(cl) && cl <= usize::MAX
    &&& sdec_bool(a, "copyKernels"@) is Some
    &&& sdec_uint(a, "timeout"@) matches Some(tm) && tm <= u32::MAX
    &&& sdec_str(a, "timeoutStyle"@) is Some
    &&& sdec_str(a, "default"@) is Some
    &&& sdec_str(a, "fsIdentifier"@) matches Some(fsv) && (fsv == "uuid"@ || fsv == "label"@
        || fsv == "provided"@)
    &&& sdec_str(a, "bootPath"@) is Some
    &&& sdec_str(a, "storePath"@) is Some
    &&& sdec_str(a, "gfxmodeEfi"@) is Some
    &&& sdec_str(a, "gfxmodeBios"@) is Some
    &&& sdec_str(a, "gfxpayloadEfi"@) is Some
    &&& sdec_str(a, "gfxpayloadBios"@) is Some
    &&& sdec_str(a, "font"@) is Some
    &&& sdec_opt(a, "theme"@) is Some
    &&& sdec_str(a, "shell"@) is Some
    &&& sdec_str(a, "path"@) is Some
    &&& sdec_bool(a, "useOSProber"@) is Some
    &&& sdec_bool(a, "canTouchEfiVariables"@) is Some
    &&& sdec_bool(a, "efiInstallAsRemovable"@) is Some
    &&& sdec_str(a, "efiSysMountPoint"@) is Some
    &&& sdec_str(a, "bootloaderId"@) is Some
    &&& sdec_bool(a, "forceInstall"@) is Some
    &&& sdec_list(a, "devices"@) is Some
    &&& sdec_list(a, "extraGrubInstallArgs"@) is Some
    &&& sdec_str(a, "fullName"@) is Some
    &&& sdec_str(a, "fullVersion"@) is Some
}

/// The fields of `c` pinned to the decoded values of `root` (the resolved
/// `users` are supplied separately and stored unchanged).
pub open spec fn config_matches(root: XmlNode, users: Users, c: Config) -> bool {
    &&& root_attrs(root) matches Some(a)
    &&& Some(opt_view(c.grub)) == sdec_opt(a, "grub"@)
    &&& Some(opt_view(c.grub_target)) == sdec_opt(a, "grubTarget"@)
    &&& Some(opt_view(c.grub_efi)) == sdec_opt(a, "grubEfi"@)
    &&& Some(opt_view(c.grub_target_efi)) == sdec_opt(a, "grubTargetEfi"@)
    &&& Some(c.extra_config@) == sdec_str(a, "extraConfig"@)
    &&& Some(c.extra_prepare_config@) == sdec_str(a, "extraPrepareConfig"@)
    &&& Some(opt_view(c.extra_per_entry_config)) == sdec_opt(a, "extraPerEntryConfig"@)
    &&& Some(c.extra_entries@) == sdec_str(a, "extraEntries"@)
    &&& Some(c.extra_entries_before_nixos) == sdec_bool(a, "extraEntriesBeforeNixOS"@)
    &&& Some(opt_view(c.splash_image)) == sdec_opt(a, "splashImage"@)
    &&& Some(opt_view(c.splash_mode)) == sdec_opt(a, "splashMode"@)
    &&& Some(opt_view(c.background_color)) == sdec_opt(a, "backgroundColor"@)
    &&& Some(c.entry_options@) == sdec_str(a, "entryOptions"@)
    &&& Some(c.sub_entry_options@) == sdec_str(a, "subEntryOptions"@)
    &&& Some(c.configuration_limit as nat) == sdec_uint(a, "configurationLimit"@)
    &&& Some(c.copy_kernels) == sdec_bool(a, "copyKernels"@)
    &&& Some(c.timeout as nat) == sdec_uint(a, "timeout"@)
    &&& Some(c.timeout_style@) == sdec_str(a, "timeoutStyle"@)
    &&& Some(c.default_entry@) == sdec_str(a, "default"@)
    &&& sdec_str(a, "fsIdentifier"@) matches Some(fsv) && fs_ident_of(fsv, c.fs_identifier)
    &&& Some(c.boot_path@) == sdec_str(a, "bootPath"@)
    &&& Some(c.store_path@) == sdec_str(a, "storePath"@)
    &&& Some(c.gfx_mode_efi@) == sdec_str(a, "gfxmodeEfi"@)
    &&& Some(c.gfx_mode_bios@) == sdec_str(a, "gfxmodeBios"@)
    &&& Some(c.gfx_payload_efi@) == sdec_str(a, "gfxpayloadEfi"@)
    &&& Some(c.gfx_payload_bios@) == sdec_str(a, "gfxpayloadBios"@)
    &&& Some(c.font@) == sdec_str(a, "font"@)
    &&& Some(opt_view(c.theme)) == sdec_opt(a, "theme"@)
    &&& Some(c.shell@) == sdec_str(a, "shell"@)
    &&& Some(c.path@) == sdec_str(a, "path"@)
    &&& c.users == users
    &&& Some(c.use_os_prober) == sdec_bool(a, "useOSProber"@)
    &&& Some(c.can_touch_efi_variables) == sdec_bool(a, "canTouchEfiVariables"@)
    &&& Some(c.efi_install_as_removable) == sdec_bool(a, "efiInstallAsRemovable"@)
    &&& Some(c.efi_sys_mount_point@) == sdec_str(a, "efiSysMountPoint"@)
    &&& Some(c.bootloader_id@) == sdec_str(a, "bootloaderId"@)
    &&& Some(c.force_install) == sdec_bool(a, "forceInstall"@)
    &&& Some(c.devices@.map_values(|s: String| s@)) == sdec_list(a, "devices"@)
    &&& Some(c.extra_grub_install_args@.map_values(|s: String| s@)) == sdec_list(
        a,
        "extraGrubInstallArgs"@,
    )
    &&& Some(c.full_name@) == sdec_str(a, "fullName"@)
    &&& Some(c.full_version@) == sdec_str(a, "fullVersion"@)
}

/// Looks `key` up under the `<attrs>` node `a`, or reports it missing.
pub fn require_key<'a>(a: &'a XmlNode, key: &str) -> (r: Result<&'a XmlNode, Error>)
    ensures
        match r {
            Ok(c) => key_node(*a, key@) == Some(*c),
            Err(e) => {
                &&& key_node(*a, key@) is None
                &&& e matches Error::KeyNotFound { key: k }
                &&& k@ == key@
            },
        },
{
    match lookup_key(a, key) {
        Some(n) => Ok(n),
        None => Err(Error::KeyNotFound { key: String::from_str(key) }),
    }
}

impl Config {
    /// Decodes the whole configuration out of the document root, storing the
    /// separately resolved `users`.
    pub fn from_xml(root: &XmlNode, users: Users) -> (r: Result<Config, Error>)
        ensures
            r is Ok <==> config_ok(*root),
            r matches Ok(c) ==> config_matches(*root, users, c),
    {
        if !str_eq(root.tag.as_str(), "expr") {
            return Err(Error::RootIsNotExpr);
        }
        let a: &XmlNode = match first_element_child(root) {
            Some(a) => a,
            None => {
                return Err(Error::RootExprIsEmpty);
            },
        };
        let grub = decode_opt_str(require_key(a, "grub")?)?;
        let grub_target = decode_opt_str(require_key(a, "grubTarget")?)?;
        let grub_efi = decode_opt_str(require_key(a, "grubEfi")?)?;
        let grub_target_efi = decode_opt_str(require_key(a, "grubTargetEfi")?)?;
        let extra_config = decode_str(require_key(a, "extraConfig")?)?;
        let extra_prepare_config = decode_str(require_key(a, "extraPrepareConfig")?)?;
        let extra_per_entry_config = decode_opt_str(require_key(a, "extraPerEntryConfig")?)?;
        let extra_entries = decode_str(require_key(a, "extraEntries")?)?;
        let extra_entries_before_nixos = decode_bool(require_key(a, "extraEntriesBeforeNixOS")?)?;
        let splash_image = decode_opt_str(require_key(a, "splashImage")?)?;
        let splash_mode = decode_opt_str(require_key(a, "splashMode")?)?;
        let background_color = decode_opt_str(require_key(a, "backgroundColor")?)?;
        let entry_options = decode_str(require_key(a, "entryOptions")?)?;
        let sub_entry_options = decode_str(require_key(a, "subEntryOptions")?)?;
        let configuration_limit = decode_usize(require_key(a, "configurationLimit")?)?;
        let copy_kernels = decode_bool(require_key(a, "copyKernels")?)?;
        let timeout = decode_u32(require_key(a, "timeout")?)?;
        let timeout_style = decode_str(require_key(a, "timeoutStyle")?)?;
        let default_entry = decode_str(require_key(a, "default")?)?;
        let fs_identifier = decode_fs_identifier(require_key(a, "fsIdentifier")?)?;
        let boot_path = decode_str(require_key(a, "bootPath")?)?;
        let store_path = decode_str(require_key(a, "storePath")?)?;
        let gfx_mode_efi = decode_str(require_key(a, "gfxmodeEfi")?)?;
        let gfx_mode_bios = decode_str(require_key(a, "gfxmodeBios")?)?;
        let gfx_payload_efi = decode_str(require_key(a, "gfxpayloadEfi")?)?;
        let gfx_payload_bios = decode_str(require_key(a, "gfxpayloadBios")?)?;
        let font = decode_str(require_key(a, "font")?)?;
        let theme = decode_opt_str(require_key(a, "theme")?)?;
        let shell = decode_str(require_key(a, "shell")?)?;
        let path = decode_str(require_key(a, "path")?)?;
        let use_os_prober = decode_bool(require_key(a, "useOSProber")?)?;
        let can_touch_efi_variables = decode_bool(require_key(a, "canTouchEfiVariables")?)?;
        let efi_install_as_removable = decode_bool(require_key(a, "efiInstallAsRemovable")?)?;
        let efi_sys_mount_point = decode_str(require_key(a, "efiSysMountPoint")?)?;
        let bootloader_id = decode_str(require_key(a, "bootloaderId")?)?;
        let force_install = decode_bool(require_key(a, "forceInstall")?)?;
        let devices = decode_list_str(require_key(a, "devices")?)?;
        let extra_grub_install_args = decode_list_str(require_key(a, "extraGrubInstallArgs")?)?;
        let full_name = decode_str(require_key(a, "fullName")?)?;
        let full_version = decode_str(require_key(a, "fullVersion")?)?;
        Ok(
            Config {
                grub,
                grub_target,
                grub_efi,
                grub_target_efi,
                extra_config,
                extra_prepare_config,
                extra_per_entry_config,
                extra_entries,
                extra_entries_before_nixos,
                splash_image,
                splash_mode,
                background_color,
                entry_options,
                sub_entry_options,
                configuration_limit,
                copy_kernels,
                timeout,
                timeout_style,
                default_entry,
                fs_identifier,
                boot_path,
                store_path,
                gfx_mode_efi,
                gfx_mode_bios,
                gfx_payload_efi,
                gfx_payload_bios,
                font,
                theme,
                shell,
                path,
                users,
                use_os_prober,
                can_touch_efi_variables,
                efi_install_as_removable,
                efi_sys_mount_point,
                bootloader_id,
                force_install,
                devices,
                extra_grub_install_args,
                full_name,
                full_version,
            },
        )
    }

    /// Whether the default entry is the saved one, enabling `savedefault`.
    pub fn save_default(&self) -> (r: bool)
        ensures
            r == (self.default_entry@ == "saved"@),
    {
        str_eq(self.default_entry.as_str(), "saved")
    }

    /// Forces kernels to be copied when the boot partition's device differs
    /// from the store's; every other field keeps its value.
    pub fn reconcile_copy_kernels(&mut self, boot_dev: u64, store_dev: u64)
        ensures
            final(self).copy_kernels == (old(self).copy_kernels || boot_dev != store_dev),
            *final(self) == (Config { copy_kernels: final(self).copy_kernels, ..*old(self) }),
    {
        if boot_dev != store_dev {
            self.copy_kernels = true;
        }
    }
}

/// Decodes the value node `n` as a filesystem identifier: one of `uuid`,
/// `label` or `provided`.
pub fn decode_fs_identifier(n: &XmlNode) -> (r: Result<FsIdentifier, Error>)
    ensures
        match r {
            Ok(f) => {
                &&& n.tag@ == "string"@
                &&& node_value(*n) matches Some(v)
                &&& fs_ident_of(v, f)
            },
            Err(e) => {
                ||| {
                    &&& n.tag@ != "string"@
                    &&& e matches Error::UnexpectedTag { expected, found }
                    &&& expected@ == "string"@
                    &&& found@ == n.tag@
                }
                ||| {
                    &&& n.tag@ == "string"@
                    &&& node_value(*n) is None
                    &&& e is ValueAttrNotFound
                }
                ||| {
                    &&& n.tag@ == "string"@
                    &&& node_value(*n) matches Some(v)
                    &&& v != "uuid"@ && v != "label"@ && v != "provided"@
                    &&& e matches Error::InvalidFsIdentifier(t)
                    &&& t@ == v
                }
            },
        },
{
    let s = decode_str(n)?;
    if str_eq(s.as_str(), "uuid") {
        Ok(FsIdentifier::Uuid)
    } else if str_eq(s.as_str(), "label") {
        Ok(FsIdentifier::Label)
    } else if str_eq(s.as_str(), "provided") {
        Ok(FsIdentifier::Provided)
    } else {
        Err(Error::InvalidFsIdentifier(s))
    }
}

} // verus!
