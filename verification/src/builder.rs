//! The menu builder: accumulates the text of `grub.cfg` in a buffer, the
//! set of kernel files this run places or keeps, and the filesystem actions
//! the caller must perform before the new menu is published.

use vstd::prelude::*;
use vstd::string::StringExecFns;
use crate::config::{Config, Password, is_prefix};
use crate::grub::{FsIdentifier, PathPair};
use crate::strings::{dec_digits, u64_to_string, push_char, join_with, join_seq, views_of};

pub mod appearance;
pub mod entries;

verus! {

/// A filesystem action the caller performs on the library's behalf, before
/// the new `grub.cfg` is renamed into place (and skips entirely on a dry
/// run).
pub enum Action {
    /// Copy `src` over `dst` unconditionally.
    Copy { src: String, dst: String },
    /// If `dst` does not exist, copy `src` to `dst.tmp` and rename it to
    /// `dst`, so the destination appears atomically.
    CopyIfMissing { src: String, dst: String },
    /// Remove the theme directory `dst` if it exists.
    ClearThemeDir { dst: String },
    /// Copy one theme file `src` to `dst` under the theme directory.
    CopyThemeFile { src: String, dst: String },
    /// Rename the initrd-secrets file the hook produced to `dst`.
    PlaceSecrets { dst: String },
}

/// The view of an action: its kind and the paths it touches.
pub enum ActionV {
    CopyV(Seq<char>, Seq<char>),
    CopyIfMissingV(Seq<char>, Seq<char>),
    ClearThemeDirV(Seq<char>),
    CopyThemeFileV(Seq<char>, Seq<char>),
    PlaceSecretsV(Seq<char>),
}

pub open spec fn action_view(a: Action) -> ActionV {
    match a {
        Action::Copy { src, dst } => ActionV::CopyV(src@, dst@),
        Action::CopyIfMissing { src, dst } => ActionV::CopyIfMissingV(src@, dst@),
        Action::ClearThemeDir { dst } => ActionV::ClearThemeDirV(dst@),
        Action::CopyThemeFile { src, dst } => ActionV::CopyThemeFileV(src@, dst@),
        Action::PlaceSecrets { dst } => ActionV::PlaceSecretsV(dst@),
    }
}

pub open spec fn action_views(s: Seq<Action>) -> Seq<ActionV> {
    s.map_values(|a: Action| action_view(a))
}

pub proof fn lemma_action_views_push(s: Seq<Action>, a: Action)
    ensures
        action_views(s.push(a)) =~= action_views(s).push(action_view(a)),
{
    assert forall|j: int| 0 <= j < s.len() + 1 implies #[trigger] action_views(s.push(a))[j]
        == action_views(s).push(action_view(a))[j] by {
        if j < s.len() {
            assert(s.push(a)[j] == s[j]);
        }
    }
}

pub open spec fn action_is_copy(a: Action, src: Seq<char>, dst: Seq<char>) -> bool {
    a matches Action::Copy { src: s, dst: d } && s@ == src && d@ == dst
}

/// The builder: configuration, the menu buffer, the resolved boot and
/// optional store path pairs, the copied-paths set, and the pending
/// actions.
pub struct Builder {
    pub config: Config,
    pub inner: String,
    pub grub_boot: PathPair,
    pub grub_store: Option<PathPair>,
    pub copied: Vec<String>,
    pub actions: Vec<Action>,
    pub dry_run: bool,
    pub default_config: String,
}

/// The menu header: the boot `search` directive (except for provided
/// filesystem identifiers), the timeout, its style, and the default entry
/// (the saved one when so configured).
pub open spec fn header_text(c: Config, boot_search: Seq<char>) -> Seq<char> {
    (if c.fs_identifier is Provided {
        Seq::<char>::empty()
    } else {
        boot_search + seq!['\n']
    }) + "set timeout="@ + dec_digits(c.timeout as nat) + seq!['\n'] + "set timeout_style="@
        + c.timeout_style@ + seq!['\n'] + (if c.default_entry@ == "saved"@ {
        "set default=\"${saved_entry}\"\n"@
    } else {
        "set default="@ + c.default_entry@ + seq!['\n']
    })
}

/// One user's password line.
pub open spec fn user_line(name: Seq<char>, p: Password) -> Seq<char> {
    match p {
        Password::Hashed(h) => "password_pbkdf2 "@ + name + seq![' '] + h@ + seq!['\n'],
        Password::Plain(t) => "password "@ + name + seq![' '] + t@ + seq!['\n'],
    }
}

/// The password lines of all users, in document order.
pub open spec fn users_lines(us: Seq<(String, Password)>) -> Seq<char>
    decreases us.len(),
{
    if us.len() == 0 {
        Seq::<char>::empty()
    } else {
        user_line(us[0].0@, us[0].1) + users_lines(us.drop_first())
    }
}

pub open spec fn user_names(us: Seq<(String, Password)>) -> Seq<Seq<char>> {
    us.map_values(|u: (String, Password)| u.0@)
}

/// The users block: one password line per user, then, when any user
/// exists, the superusers line naming them all.
pub open spec fn users_block(us: Seq<(String, Password)>) -> Seq<char> {
    users_lines(us) + (if us.len() > 0 {
        "set superusers=\""@ + join_seq(user_names(us), ' ') + "\"\n"@
    } else {
        Seq::<char>::empty()
    })
}

impl Builder {
    /// A fresh builder with an empty buffer and nothing copied or planned.
    pub fn new(
        config: Config,
        default_config: String,
        grub_boot: PathPair,
        grub_store: Option<PathPair>,
        dry_run: bool,
    ) -> (r: Builder)
        ensures
            r.config == config,
            r.default_config == default_config,
            r.grub_boot == grub_boot,
            r.grub_store == grub_store,
            r.dry_run == dry_run,
            r.inner@ == Seq::<char>::empty(),
            r.copied@ == Seq::<String>::empty(),
            r.actions@ == Seq::<Action>::empty(),
    {
        Builder {
            config,
            inner: String::new(),
            grub_boot,
            grub_store,
            copied: Vec::new(),
            actions: Vec::new(),
            dry_run,
            default_config,
        }
    }

    /// Appends the menu header.
    pub fn header(&mut self)
        ensures
            final(self).inner@ == old(self).inner@ + header_text(
                old(self).config,
                old(self).grub_boot.search@,
            ),
            *final(self) == (Builder { inner: final(self).inner, ..*old(self) }),
    {
        let ghost base = self.inner@;
        match self.config.fs_identifier {
            FsIdentifier::Provided => {},
            _ => {
                let search = self.grub_boot.search.clone();
                self.inner.append(search.as_str());
                push_char(&mut self.inner, '\n');
            },
        }
        self.inner.append("set timeout=");
        let t = u64_to_string(self.config.timeout as u64);
        self.inner.append(t.as_str());
        push_char(&mut self.inner, '\n');
        self.inner.append("set timeout_style=");
        let style = self.config.timeout_style.clone();
        self.inner.append(style.as_str());
        push_char(&mut self.inner, '\n');
        if self.config.save_default() {
            self.inner.append("set default=\"${saved_entry}\"\n");
        } else {
            self.inner.append("set default=");
            let d = self.config.default_entry.clone();
            self.inner.append(d.as_str());
            push_char(&mut self.inner, '\n');
        }
        proof {
            assert(self.inner@ =~= base + header_text(self.config, self.grub_boot.search@));
        }
    }

    /// Appends the users block.
    pub fn users(&mut self)
        ensures
            final(self).inner@ == old(self).inner@ + users_block(old(self).config.users.0@),
            *final(self) == (Builder { inner: final(self).inner, ..*old(self) }),
    {
        let ghost base = self.inner@;
        let ghost us = self.config.users.0@;
        let mut names: Vec<String> = Vec::new();
        let mut i: usize = 0;
        proof {
            assert(base + users_lines(us.subrange(0, 0)) =~= base);
            assert(users_lines(us.subrange(0, 0)) =~= Seq::<char>::empty());
        }
        while i < self.config.users.0.len()
            invariant
                i <= us.len(),
                us == self.config.users.0@,
                self.inner@ == base + users_lines(us.subrange(0, i as int)),
                views_of(names@) =~= user_names(us.subrange(0, i as int)),
                *self == (Builder { inner: self.inner, ..*old(self) }),
            decreases us.len() - i,
        {
            let ghost ipre = self.inner@;
            let user = self.config.users.0[i].0.clone();
            match &self.config.users.0[i].1 {
                Password::Hashed(h) => {
                    let hc = h.clone();
                    self.inner.append("password_pbkdf2 ");
                    self.inner.append(user.as_str());
                    push_char(&mut self.inner, ' ');
                    self.inner.append(hc.as_str());
                    push_char(&mut self.inner, '\n');
                },
                Password::Plain(t) => {
                    let tc = t.clone();
                    self.inner.append("password ");
                    self.inner.append(user.as_str());
                    push_char(&mut self.inner, ' ');
                    self.inner.append(tc.as_str());
                    push_char(&mut self.inner, '\n');
                },
            }
            let ghost npre = names@;
            names.push(user);
            proof {
                crate::strings::lemma_views_push(npre, us[i as int].0);
                assert(self.inner@ =~= ipre + user_line(us[i as int].0@, us[i as int].1));
                let pre1 = us.subrange(0, i + 1 as int);
                assert(pre1.drop_last() =~= us.subrange(0, i as int));
                lemma_users_lines_push(us, i as int);
                assert(self.inner@ =~= base + users_lines(us.subrange(0, i + 1 as int)));
                assert(user_names(us.subrange(0, i + 1 as int)) =~= user_names(
                    us.subrange(0, i as int),
                ).push(us[i as int].0@));
                assert(views_of(names@) =~= user_names(us.subrange(0, i + 1 as int)));
            }
            i = i + 1;
        }
        proof {
            assert(us.subrange(0, us.len() as int) =~= us);
        }
        if names.len() > 0 {
            self.inner.append("set superusers=\"");
            let joined = join_with(&names, ' ');
            self.inner.append(joined.as_str());
            self.inner.append("\"\n");
        }
        proof {
            assert(self.inner@ =~= base + users_block(us));
        }
    }
}

/// The password lines over a prefix extend one line at a time.
proof fn lemma_users_lines_push(us: Seq<(String, Password)>, i: int)
    requires
        0 <= i < us.len(),
    ensures
        users_lines(us.subrange(0, i + 1)) =~= users_lines(us.subrange(0, i)) + user_line(
            us[i].0@,
            us[i].1,
        ),
    decreases i,
{
    if i == 0 {
        let s1 = us.subrange(0, 1);
        assert(s1[0] == us[0]);
        assert(s1.drop_first() =~= Seq::<(String, Password)>::empty());
        assert(users_lines(s1) == user_line(s1[0].0@, s1[0].1) + users_lines(s1.drop_first()));
        assert(users_lines(s1.drop_first()) == Seq::<char>::empty());
        assert(users_lines(s1) =~= user_line(us[0].0@, us[0].1));
        assert(users_lines(us.subrange(0, 0)) =~= Seq::<char>::empty());
    } else {
        lemma_users_lines_push(us.drop_first(), i - 1);
        let a = us.subrange(0, i + 1);
        let b = us.subrange(0, i);
        assert(a.drop_first() =~= us.drop_first().subrange(0, i));
        assert(b.drop_first() =~= us.drop_first().subrange(0, i - 1));
        assert(users_lines(a) =~= user_line(a[0].0@, a[0].1) + users_lines(
            us.drop_first().subrange(0, i),
        ));
        assert(users_lines(b) =~= user_line(b[0].0@, b[0].1) + users_lines(
            us.drop_first().subrange(0, i - 1),
        ));
        assert(us.drop_first()[i - 1] == us[i]);
        assert(users_lines(us.subrange(0, i + 1)) =~= users_lines(us.subrange(0, i)) + user_line(
            us[i].0@,
            us[i].1,
        ));
    }
}

/// Every hashed password in the list carries the `grub.pbkdf2.` prefix.
pub open spec fn users_seq_wf(us: Seq<(String, Password)>) -> bool {
    forall|i: int|
        0 <= i < us.len() ==> ((#[trigger] us[i]).1 matches Password::Hashed(h) ==> is_prefix(
            "grub.pbkdf2."@,
            h@,
        ))
}

/// Password policy: the users block holds exactly one password line per
/// user — a `password_pbkdf2` line whose hash starts with `grub.pbkdf2.`
/// for a hashed password, a `password` line for a plain one, never both.
#[verifier::rlimit(50)]
pub proof fn lemma_password_policy(us: Seq<(String, Password)>, k: int)
    requires
        0 <= k < us.len(),
        users_seq_wf(us),
    ensures
        users_lines(us) =~= users_lines(us.subrange(0, k)) + user_line(us[k].0@, us[k].1)
            + users_lines(us.subrange(k + 1, us.len() as int)),
        us[k].1 matches Password::Hashed(h) ==> (user_line(us[k].0@, us[k].1)
            == "password_pbkdf2 "@ + us[k].0@ + seq![' '] + h@ + seq!['\n'] && is_prefix(
            "grub.pbkdf2."@,
            h@,
        )),
        us[k].1 matches Password::Plain(t) ==> user_line(us[k].0@, us[k].1) == "password "@
            + us[k].0@ + seq![' '] + t@ + seq!['\n'],
    decreases k,
{
    if k == 0 {
        assert(us.subrange(0, 0) =~= Seq::<(String, Password)>::empty());
        assert(users_lines(us.subrange(0, 0)) =~= Seq::<char>::empty());
        assert(us.subrange(1, us.len() as int) =~= us.drop_first());
        assert(users_lines(us) == user_line(us[0].0@, us[0].1) + users_lines(us.drop_first()));
    } else {
        assert(forall|i: int|
            0 <= i < us.drop_first().len() ==> ((#[trigger] us.drop_first()[i]).1
                matches Password::Hashed(h) ==> is_prefix("grub.pbkdf2."@, h@))) by {
            assert(forall|i: int|
                0 <= i < us.drop_first().len() ==> us.drop_first()[i] == us[i + 1]);
        }
        lemma_password_policy(us.drop_first(), k - 1);
        assert(us.drop_first()[k - 1] == us[k]);
        assert(us.drop_first().subrange(0, k - 1) =~= us.subrange(1, k));
        assert(us.drop_first().subrange(k, us.drop_first().len() as int) =~= us.subrange(
            k + 1,
            us.len() as int,
        ));
        assert(users_lines(us) == user_line(us[0].0@, us[0].1) + users_lines(us.drop_first()));
        assert(users_lines(us.subrange(0, k)) =~= user_line(us[0].0@, us[0].1) + users_lines(
            us.subrange(1, k),
        )) by {
            let b = us.subrange(0, k);
            assert(b[0] == us[0]);
            assert(b.drop_first() =~= us.subrange(1, k));
            assert(users_lines(b) == user_line(b[0].0@, b[0].1) + users_lines(b.drop_first()));
        }
    }
}

} // verus!
