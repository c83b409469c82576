//! The persisted "last installed" record: a six-line text file whose sixth
//! line is a JSON object, reconciled against the desired state to decide
//! whether GRUB must be reinstalled.

use vstd::prelude::*;
use vstd::string::StrSliceExecFns;
use vstd::string::StringExecFns;
use crate::config::Config;
use crate::install::{EfiTarget, efi_mode_str, contains_str};
use crate::strings::{
    views_of,
    lemma_views_push,
    split_seq,
    split_chars,
    lines_spec,
    lines_of,
    join_seq,
    join_with,
    chars_of,
    string_from_chars,
    push_char,
    lemma_split_line,
    lemma_join_split,
    lemma_join_no_char,
};

verus! {

/// The serialized sixth state line: a compact JSON object binding `key` to
/// the list `items`.  Names what serde_json's serializer returns.
pub uninterp spec fn json_state_line(key: Seq<char>, items: Seq<Seq<char>>) -> Seq<char>;

/// The string list bound to `key` in the JSON object `s`: an absent key is
/// the empty list, anything that is not an object of string lists is
/// `None`.  Names what serde_json's parser returns.
pub uninterp spec fn json_line_list(s: Seq<char>, key: Seq<char>) -> Option<Seq<Seq<char>>>;

/// Relies on serde_json's `Value` serialization (`Display`): renders the
/// object `{key: [items..]}` compactly on one line, with every control
/// character escaped, so the result is non-empty and free of raw newlines
/// and carriage returns, and parsing it back yields the items.
#[verifier::external_body]
fn json_render_list(key: &str, items: &Vec<String>) -> (r: String)
    ensures
        r@ == json_state_line(key@, views_of(items@)),
        json_line_list(r@, key@) == Some(views_of(items@)),
        r@.len() > 0,
        forall|i: int| 0 <= i < r@.len() ==> r@[i] != '\n' && r@[i] != '\r',
{
    let mut object = serde_json::Map::new();
    object.insert(
        key.to_string(),
        serde_json::Value::Array(
            items.iter().map(|s| serde_json::Value::String(s.clone())).collect(),
        ),
    );
    serde_json::Value::Object(object).to_string()
}

/// Relies on serde_json's `from_str`: parses `s` as a JSON object and hands
/// back the array of strings bound to `key` (absent: the empty list), or
/// `None` when `s` is not such an object.
#[verifier::external_body]
fn json_parse_list(s: &str, key: &str) -> (r: Option<Vec<String>>)
    ensures
        match r {
            Some(v) => json_line_list(s@, key@) == Some(views_of(v@)),
            None => json_line_list(s@, key@) is None,
        },
{
    let v: serde_json::Value = match serde_json::from_str(s) {
        Ok(v) => v,
        Err(_) => {
            return None;
        },
    };
    let object = v.as_object()?;
    match object.get(key) {
        None => Some(Vec::new()),
        Some(a) => a.as_array()?.iter().map(
            |x| x.as_str().map(|t| t.to_string()),
        ).collect::<Option<Vec<String>>>(),
    }
}

// ---------------------------------------------------------------------------
// The record
// ---------------------------------------------------------------------------

/// The parameters of the most recent successful GRUB installation.
pub struct GrubState {
    pub name: String,
    pub version: String,
    pub efi: String,
    pub devices: Vec<String>,
    pub efi_mount_point: String,
    pub extra_grub_install_args: Vec<String>,
}

/// The view of a persisted record.
pub struct StateV {
    pub name: Seq<char>,
    pub version: Seq<char>,
    pub efi: Seq<char>,
    pub devices: Seq<Seq<char>>,
    pub mount: Seq<char>,
    pub args: Seq<Seq<char>>,
}

pub open spec fn state_v(s: GrubState) -> StateV {
    StateV {
        name: s.name@,
        version: s.version@,
        efi: s.efi@,
        devices: views_of(s.devices@),
        mount: s.efi_mount_point@,
        args: views_of(s.extra_grub_install_args@),
    }
}

/// The record with every field empty, standing for "never installed".
pub open spec fn empty_state() -> StateV {
    StateV {
        name: Seq::<char>::empty(),
        version: Seq::<char>::empty(),
        efi: Seq::<char>::empty(),
        devices: Seq::<Seq<char>>::empty(),
        mount: Seq::<char>::empty(),
        args: Seq::<Seq<char>>::empty(),
    }
}

/// What parsing a state file's text yields: five lines at least, the
/// devices split at commas, the sixth line (when present and non-empty)
/// read as the JSON object.
pub open spec fn state_parse(t: Seq<char>) -> Option<StateV> {
    let ls = lines_spec(t);
    if ls.len() < 5 {
        None
    } else {
        let args = if ls.len() >= 6 && ls[5].len() > 0 {
            json_line_list(ls[5], "extraGrubInstallArgs"@)
        } else {
            Some(Seq::<Seq<char>>::empty())
        };
        match args {
            Some(a) => Some(
                StateV {
                    name: ls[0],
                    version: ls[1],
                    efi: ls[2],
                    devices: split_seq(ls[3], ','),
                    mount: ls[4],
                    args: a,
                },
            ),
            None => None,
        }
    }
}

/// The rendered state file text.
pub open spec fn state_render(v: StateV) -> Seq<char> {
    v.name + seq!['\n'] + v.version + seq!['\n'] + v.efi + seq!['\n'] + join_seq(v.devices, ',')
        + seq!['\n'] + v.mount + seq!['\n'] + json_state_line("extraGrubInstallArgs"@, v.args)
        + seq!['\n']
}

/// The fields that must stay line-shaped for the file to read back: no
/// newlines or carriage returns anywhere, at least one device, and no
/// commas inside a device.
pub open spec fn state_wf(v: StateV) -> bool {
    &&& !v.name.contains('\n') && !v.name.contains('\r')
    &&& !v.version.contains('\n') && !v.version.contains('\r')
    &&& !v.efi.contains('\n') && !v.efi.contains('\r')
    &&& !v.mount.contains('\n') && !v.mount.contains('\r')
    &&& v.devices.len() > 0
    &&& forall|i: int|
        0 <= i < v.devices.len() ==> !(#[trigger] v.devices[i]).contains(',') && !v.devices[
            i
        ].contains('\n') && !v.devices[i].contains('\r')
}

impl GrubState {
    /// Parses a state file's text.
    pub fn parse(text: &str) -> (r: Option<GrubState>)
        ensures
            match r {
                Some(g) => state_parse(text@) == Some(state_v(g)),
                None => state_parse(text@) is None,
            },
    {
        let lines = lines_of(text);
        let ghost ls = lines_spec(text@);
        if lines.len() < 5 {
            return None;
        }
        let dcs = chars_of(lines[3].as_str());
        let parts = split_chars(&dcs, ',');
        let mut devices: Vec<String> = Vec::new();
        let mut i: usize = 0;
        while i < parts.len()
            invariant
                i <= parts@.len(),
                parts@.map_values(|p: Vec<char>| p@) == split_seq(ls[3], ','),
                views_of(devices@) =~= split_seq(ls[3], ',').subrange(0, i as int),
                ls == lines_spec(text@),
                ls.len() >= 5,
            decreases parts@.len() - i,
        {
            let ghost d0 = devices@;
            let s = string_from_chars(&parts[i]);
            devices.push(s);
            proof {
                lemma_views_push(d0, s);
                assert(split_seq(ls[3], ',').subrange(0, i + 1 as int) =~= split_seq(
                    ls[3],
                    ',',
                ).subrange(0, i as int).push(split_seq(ls[3], ',')[i as int]));
            }
            i = i + 1;
        }
        proof {
            assert(split_seq(ls[3], ',').subrange(0, split_seq(ls[3], ',').len() as int)
                =~= split_seq(ls[3], ','));
        }
        let args: Vec<String> = if lines.len() >= 6 && lines[5].as_str().unicode_len() > 0 {
            match json_parse_list(lines[5].as_str(), "extraGrubInstallArgs") {
                Some(v) => v,
                None => {
                    return None;
                },
            }
        } else {
            Vec::new()
        };
        proof {
            assert(views_of(Seq::<String>::empty()) =~= Seq::<Seq<char>>::empty());
        }
        Some(
            GrubState {
                name: lines[0].clone(),
                version: lines[1].clone(),
                efi: lines[2].clone(),
                devices,
                efi_mount_point: lines[4].clone(),
                extra_grub_install_args: args,
            },
        )
    }

    /// Loads the record from the state file's contents; a missing or
    /// unreadable file (`None`) or an unparseable one yields the empty
    /// record.
    pub fn load(contents: Option<&String>) -> (r: GrubState)
        ensures
            match contents {
                Some(t) => match state_parse(t@) {
                    Some(v) => state_v(r) == v,
                    None => state_v(r) == empty_state(),
                },
                None => state_v(r) == empty_state(),
            },
    {
        let parsed: Option<GrubState> = match contents {
            Some(t) => GrubState::parse(t.as_str()),
            None => None,
        };
        match parsed {
            Some(g) => g,
            None => {
                let g = GrubState {
                    name: String::new(),
                    version: String::new(),
                    efi: String::new(),
                    devices: Vec::new(),
                    efi_mount_point: String::new(),
                    extra_grub_install_args: Vec::new(),
                };
                proof {
                    assert(views_of(Seq::<String>::empty()) =~= Seq::<Seq<char>>::empty());
                    assert(state_v(g) == empty_state());
                }
                g
            },
        }
    }

    /// Renders the record as the state file's text.  A well-formed record
    /// reads back as itself, so what was installed is what a later run
    /// will compare against.
    pub fn render(&self) -> (r: String)
        ensures
            r@ == state_render(state_v(*self)),
            state_wf(state_v(*self)) ==> state_parse(r@) == Some(state_v(*self)),
    {
        let mut buf = String::new();
        buf.append(self.name.as_str());
        push_char(&mut buf, '\n');
        buf.append(self.version.as_str());
        push_char(&mut buf, '\n');
        buf.append(self.efi.as_str());
        push_char(&mut buf, '\n');
        let devline = join_with(&self.devices, ',');
        buf.append(devline.as_str());
        push_char(&mut buf, '\n');
        buf.append(self.efi_mount_point.as_str());
        push_char(&mut buf, '\n');
        let json = json_render_list("extraGrubInstallArgs", &self.extra_grub_install_args);
        buf.append(json.as_str());
        push_char(&mut buf, '\n');
        proof {
            let v = state_v(*self);
            assert(buf@ =~= state_render(v));
            if state_wf(v) {
                let jl = json@;
                let nl = seq!['\n'];
                let r5 = jl + nl;
                let r4 = v.mount + nl + r5;
                let r3 = join_seq(v.devices, ',') + nl + r4;
                let r2 = v.efi + nl + r3;
                let r1 = v.version + nl + r2;
                assert(buf@ =~= v.name + nl + r1);
                assert(!jl.contains('\n')) by {
                    if jl.contains('\n') {
                        let k = choose|k: int| 0 <= k < jl.len() && jl[k] == '\n';
                        assert(jl[k] != '\n');
                    }
                }
                lemma_join_no_char(v.devices, ',', '\n');
                lemma_join_no_char(v.devices, ',', '\r');
                lemma_split_line(v.name, r1, '\n');
                lemma_split_line(v.version, r2, '\n');
                lemma_split_line(v.efi, r3, '\n');
                lemma_split_line(join_seq(v.devices, ','), r4, '\n');
                lemma_split_line(v.mount, r5, '\n');
                lemma_split_line(jl, Seq::<char>::empty(), '\n');
                assert(r1 =~= v.version + nl + r2);
                assert(r2 =~= v.efi + nl + r3);
                assert(r3 =~= join_seq(v.devices, ',') + nl + r4);
                assert(r4 =~= v.mount + nl + r5);
                assert(r5 =~= jl + nl + Seq::<char>::empty());
                assert(split_seq(Seq::<char>::empty(), '\n') =~= seq![Seq::<char>::empty()]);
                let parts = split_seq(buf@, '\n');
                assert(parts =~= seq![
                    v.name,
                    v.version,
                    v.efi,
                    join_seq(v.devices, ','),
                    v.mount,
                    jl,
                    Seq::<char>::empty(),
                ]);
                assert(parts.last().len() == 0);
                let trimmed = parts.drop_last();
                assert(lines_spec(buf@) =~= trimmed.map_values(
                    |l: Seq<char>| crate::strings::strip_cr(l),
                ));
                assert(lines_spec(buf@).len() == 6);
                assert(lines_spec(buf@)[0] =~= v.name);
                assert(lines_spec(buf@)[1] =~= v.version);
                assert(lines_spec(buf@)[2] =~= v.efi);
                assert(lines_spec(buf@)[3] =~= join_seq(v.devices, ','));
                assert(lines_spec(buf@)[4] =~= v.mount);
                assert(lines_spec(buf@)[5] =~= jl);
                lemma_join_split(v.devices, ',');
                assert(state_parse(buf@) == Some(v));
            }
        }
        buf
    }
}

// ---------------------------------------------------------------------------
// Reconciliation
// ---------------------------------------------------------------------------

/// Whether some element of `a` also occurs in `b`.
pub open spec fn overlaps(a: Seq<Seq<char>>, b: Seq<Seq<char>>) -> bool {
    exists|i: int| 0 <= i < a.len() && b.contains(#[trigger] a[i])
}

/// Decides `overlaps` on the views of two string lists.
pub fn seqs_overlap(a: &Vec<String>, b: &Vec<String>) -> (r: bool)
    ensures
        r == overlaps(views_of(a@), views_of(b@)),
{
    let mut i: usize = 0;
    while i < a.len()
        invariant
            i <= a@.len(),
            forall|j: int| 0 <= j < i ==> !views_of(b@).contains(#[trigger] views_of(a@)[j]),
        decreases a@.len() - i,
    {
        if contains_str(b, &a[i]) {
            proof {
                assert(views_of(a@)[i as int] == a@[i as int]@);
            }
            return true;
        }
        proof {
            assert(views_of(a@)[i as int] == a@[i as int]@);
        }
        i = i + 1;
    }
    false
}

/// Whether reconciling `s` against the desired `(c, t)` reports dirty: any
/// identity field differs, or the desired device or argument set is not
/// disjoint from the persisted one.
pub open spec fn update_dirty(s: GrubState, c: Config, t: EfiTarget) -> bool {
    ||| overlaps(views_of(c.devices@), views_of(s.devices@))
    ||| overlaps(views_of(c.extra_grub_install_args@), views_of(s.extra_grub_install_args@))
    ||| c.full_name@ != s.name@
    ||| c.full_version@ != s.version@
    ||| efi_mode_str(t) != s.efi@
    ||| c.efi_sys_mount_point@ != s.efi_mount_point@
}

impl GrubState {
    /// Reconciles the record against the desired state.  Identity fields
    /// are brought up to date; the device and argument lists are replaced
    /// only when they overlap the persisted ones.  Reports whether GRUB
    /// must be reinstalled.
    pub fn update(&mut self, config: &Config, efi_target: &EfiTarget) -> (dirty: bool)
        ensures
            dirty == update_dirty(*old(self), *config, *efi_target),
            final(self).name@ == config.full_name@,
            final(self).version@ == config.full_version@,
            final(self).efi@ == efi_mode_str(*efi_target),
            final(self).efi_mount_point@ == config.efi_sys_mount_point@,
            views_of(final(self).devices@) == if overlaps(
                views_of(config.devices@),
                views_of(old(self).devices@),
            ) {
                views_of(config.devices@)
            } else {
                views_of(old(self).devices@)
            },
            views_of(final(self).extra_grub_install_args@) == if overlaps(
                views_of(config.extra_grub_install_args@),
                views_of(old(self).extra_grub_install_args@),
            ) {
                views_of(config.extra_grub_install_args@)
            } else {
                views_of(old(self).extra_grub_install_args@)
            },
    {
        let mut dirty: bool = false;
        if seqs_overlap(&config.devices, &self.devices) {
            dirty = true;
            self.devices = config.devices.clone();
            proof {
                assert(views_of(self.devices@) =~= views_of(config.devices@));
            }
        }
        if seqs_overlap(&config.extra_grub_install_args, &self.extra_grub_install_args) {
            dirty = true;
            self.extra_grub_install_args = config.extra_grub_install_args.clone();
            proof {
                assert(views_of(self.extra_grub_install_args@) =~= views_of(
                    config.extra_grub_install_args@,
                ));
            }
        }
        if !crate::strings::str_eq(config.full_name.as_str(), self.name.as_str()) {
            dirty = true;
            self.name = config.full_name.clone();
        }
        if !crate::strings::str_eq(config.full_version.as_str(), self.version.as_str()) {
            dirty = true;
            self.version = config.full_version.clone();
        }
        let mode = efi_target.to_str();
        if !crate::strings::str_eq(mode, self.efi.as_str()) {
            dirty = true;
            let mut m = String::new();
            m.append(mode);
            self.efi = m;
        }
        if !crate::strings::str_eq(
            config.efi_sys_mount_point.as_str(),
            self.efi_mount_point.as_str(),
        ) {
            dirty = true;
            self.efi_mount_point = config.efi_sys_mount_point.clone();
        }
        dirty
    }
}

/// Idempotence of the reconciler: when the persisted record matches the
/// desired state — the identity fields are equal and the desired device
/// and argument sets are disjoint from the persisted ones, which is the
/// overlap test the reconciler uses — no reinstall is reported.  With
/// overlapping but unchanged device lists the reconciler does report a
/// reinstall; that is the documented comparison.
pub proof fn lemma_reconciler_idempotent(s: GrubState, c: Config, t: EfiTarget)
    requires
        !overlaps(views_of(c.devices@), views_of(s.devices@)),
        !overlaps(views_of(c.extra_grub_install_args@), views_of(s.extra_grub_install_args@)),
        c.full_name@ == s.name@,
        c.full_version@ == s.version@,
        efi_mode_str(t) == s.efi@,
        c.efi_sys_mount_point@ == s.efi_mount_point@,
    ensures
        !update_dirty(s, c, t),
{
}

} // verus!
