//! Install planning: which GRUB flavours to install, the exact
//! `grub-install` and helper command lines, and which staged kernel files
//! are obsolete.  Running the commands is the caller's business; everything
//! decided here is pinned by the contracts.

use vstd::prelude::*;
use vstd::string::StringExecFns;
use crate::config::Config;
use crate::strings::{
    str_eq,
    views_of,
    lemma_views_push,
    lemma_views_concat,
    push_all_strings,
    replace_all,
    replace_seq,
};

verus! {

/// Pushes one argument, tracking the views of the list.
pub fn push_arg(args: &mut Vec<String>, s: String)
    ensures
        final(args)@ == old(args)@.push(s),
        views_of(final(args)@) == views_of(old(args)@).push(s@),
{
    proof {
        lemma_views_push(args@, s);
    }
    args.push(s);
}

/// One subprocess to run: program, arguments, and extra environment.
pub struct CmdSpec {
    pub program: String,
    pub args: Vec<String>,
    pub env: Vec<(String, String)>,
}

/// The install target matrix deduced from the configured GRUB packages.
#[derive(Debug)]
pub enum EfiTarget {
    Both { bios: String, bios_target: String, efi: String, efi_target: String },
    BiosOnly { bios: String, bios_target: Option<String> },
    EfiOnly { efi: String, efi_target: String },
    Neither,
}

/// Whether the configured package/target combination is accepted.
pub open spec fn deduce_ok(c: Config) -> bool {
    if c.grub is Some && c.grub_efi is Some {
        c.grub_target is Some && c.grub_target_efi is Some
    } else if c.grub is None && c.grub_efi is Some {
        c.grub_target_efi is Some
    } else {
        true
    }
}

/// The EFI package and target of a deduced matrix, if any.
pub open spec fn efi_pkg(t: EfiTarget) -> Option<(Seq<char>, Seq<char>)> {
    match t {
        EfiTarget::Both { efi, efi_target, .. } => Some((efi@, efi_target@)),
        EfiTarget::EfiOnly { efi, efi_target } => Some((efi@, efi_target@)),
        _ => None,
    }
}

/// The BIOS package and optional target of a deduced matrix, if any.
pub open spec fn bios_pkg(t: EfiTarget) -> Option<(Seq<char>, Option<Seq<char>>)> {
    match t {
        EfiTarget::Both { bios, bios_target, .. } => Some((bios@, Some(bios_target@))),
        EfiTarget::BiosOnly { bios, bios_target } => Some(
            (
                bios@,
                match bios_target {
                    Some(t) => Some(t@),
                    None => None,
                },
            ),
        ),
        _ => None,
    }
}

/// The EFI mode string persisted in the state file.
pub open spec fn efi_mode_str(t: EfiTarget) -> Seq<char> {
    match t {
        EfiTarget::Both { .. } => "both"@,
        EfiTarget::BiosOnly { .. } => "no"@,
        EfiTarget::EfiOnly { .. } => "only"@,
        EfiTarget::Neither => "neither"@,
    }
}

impl EfiTarget {
    /// Deduces the target matrix: both packages need both targets; EFI
    /// alone needs its target; BIOS alone may leave the target to
    /// auto-detection; neither package means nothing to install.
    pub fn deduce(config: &Config) -> (r: Result<EfiTarget, String>)
        ensures
            r is Ok <==> deduce_ok(*config),
            match r {
                Ok(t) => match t {
                    EfiTarget::Both { bios, bios_target, efi, efi_target } => {
                        &&& config.grub matches Some(g) && bios@ == g@
                        &&& config.grub_target matches Some(gt) && bios_target@ == gt@
                        &&& config.grub_efi matches Some(ge) && efi@ == ge@
                        &&& config.grub_target_efi matches Some(gte) && efi_target@ == gte@
                    },
                    EfiTarget::BiosOnly { bios, bios_target } => {
                        &&& config.grub matches Some(g) && bios@ == g@
                        &&& config.grub_efi is None
                        &&& match (bios_target, config.grub_target) {
                            (Some(t), Some(gt)) => t@ == gt@,
                            (None, None) => true,
                            _ => false,
                        }
                    },
                    EfiTarget::EfiOnly { efi, efi_target } => {
                        &&& config.grub is None
                        &&& config.grub_efi matches Some(ge) && efi@ == ge@
                        &&& config.grub_target_efi matches Some(gte) && efi_target@ == gte@
                    },
                    EfiTarget::Neither => config.grub is None && config.grub_efi is None,
                },
                Err(e) => {
                    ||| {
                        &&& config.grub is Some
                        &&& config.grub_efi is Some
                        &&& (config.grub_target is None || config.grub_target_efi is None)
                        &&& e@ == (
                        "EFI can only be installed when target is set; a target is also required then for non-EFI grub"@)
                    }
                    ||| {
                        &&& config.grub is None
                        &&& config.grub_efi is Some
                        &&& config.grub_target_efi is None
                        &&& e@ == "EFI can only be installed when target is set"@
                    }
                },
            },
    {
        match (&config.grub, &config.grub_efi) {
            (Some(bios), Some(efi)) => {
                match (&config.grub_target, &config.grub_target_efi) {
                    (Some(bios_target), Some(efi_target)) => Ok(
                        EfiTarget::Both {
                            bios: bios.clone(),
                            bios_target: bios_target.clone(),
                            efi: efi.clone(),
                            efi_target: efi_target.clone(),
                        },
                    ),
                    _ => Err(
                        String::from_str(
                            "EFI can only be installed when target is set; a target is also required then for non-EFI grub",
                        ),
                    ),
                }
            },
            (Some(bios), None) => Ok(
                EfiTarget::BiosOnly {
                    bios: bios.clone(),
                    bios_target: match &config.grub_target {
                        Some(t) => Some(t.clone()),
                        None => None,
                    },
                },
            ),
            (None, Some(efi)) => {
                match &config.grub_target_efi {
                    Some(efi_target) => Ok(
                        EfiTarget::EfiOnly { efi: efi.clone(), efi_target: efi_target.clone() },
                    ),
                    None => Err(String::from_str("EFI can only be installed when target is set")),
                }
            },
            (None, None) => Ok(EfiTarget::Neither),
        }
    }

    /// The EFI package and target, when EFI GRUB is to be installed.
    pub fn efi(&self) -> (r: Option<(&String, &String)>)
        ensures
            match r {
                Some(p) => efi_pkg(*self) == Some((p.0@, p.1@)),
                None => efi_pkg(*self) is None,
            },
    {
        match self {
            EfiTarget::Both { efi, efi_target, .. } => Some((efi, efi_target)),
            EfiTarget::EfiOnly { efi, efi_target } => Some((efi, efi_target)),
            _ => None,
        }
    }

    /// The BIOS package and optional target, when BIOS GRUB is to be
    /// installed.
    pub fn bios(&self) -> (r: Option<(&String, Option<&String>)>)
        ensures
            match r {
                Some(p) => bios_pkg(*self) matches Some(bp) && bp.0 == p.0@ && match p.1 {
                    Some(t) => bp.1 == Some(t@),
                    None => bp.1 is None,
                },
                None => bios_pkg(*self) is None,
            },
    {
        match self {
            EfiTarget::Both { bios, bios_target, .. } => Some((bios, Some(bios_target))),
            EfiTarget::BiosOnly { bios, bios_target } => Some(
                (
                    bios,
                    match bios_target {
                        Some(t) => Some(t),
                        None => None,
                    },
                ),
            ),
            _ => None,
        }
    }

    /// The EFI mode string for the persisted state.
    pub fn to_str(&self) -> (r: &'static str)
        ensures
            r@ == efi_mode_str(*self),
    {
        match self {
            EfiTarget::Both { .. } => "both",
            EfiTarget::BiosOnly { .. } => "no",
            EfiTarget::EfiOnly { .. } => "only",
            EfiTarget::Neither => "neither",
        }
    }
}

impl EfiTarget {
    /// The GRUB package that `os-prober` runs from: the EFI one when
    /// available, else the BIOS one.
    pub fn os_prober_package(&self) -> (r: Option<&String>)
        ensures
            match r {
                Some(p) => {
                    ||| {
                        &&& efi_pkg(*self) matches Some(e)
                        &&& e.0 == p@
                    }
                    ||| {
                        &&& efi_pkg(*self) is None
                        &&& bios_pkg(*self) matches Some(b)
                        &&& b.0 == p@
                    }
                },
                None => efi_pkg(*self) is None && bios_pkg(*self) is None,
            },
    {
        match self {
            EfiTarget::Both { efi, .. } => Some(efi),
            EfiTarget::EfiOnly { efi, .. } => Some(efi),
            EfiTarget::BiosOnly { bios, .. } => Some(bios),
            EfiTarget::Neither => None,
        }
    }
}

/// The EFI mode string is one of the four known words, each naming its
/// variant of the target matrix, so the persisted string determines the
/// matrix shape.
pub proof fn lemma_efi_mode_string(t: EfiTarget)
    ensures
        efi_mode_str(t) == "both"@ || efi_mode_str(t) == "no"@ || efi_mode_str(t) == "only"@
            || efi_mode_str(t) == "neither"@,
        (efi_mode_str(t) == "both"@) <==> t is Both,
        (efi_mode_str(t) == "no"@) <==> t is BiosOnly,
        (efi_mode_str(t) == "only"@) <==> t is EfiOnly,
        (efi_mode_str(t) == "neither"@) <==> t is Neither,
{
    reveal_strlit("both");
    reveal_strlit("no");
    reveal_strlit("only");
    reveal_strlit("neither");
    assert("both"@.len() == 4 && "no"@.len() == 2 && "only"@.len() == 4 && "neither"@.len() == 7);
    assert("both"@[0] == 'b' && "only"@[0] == 'o');
}

// ---------------------------------------------------------------------------
// Command lines
// ---------------------------------------------------------------------------

pub open spec fn opt_force(force: bool) -> Seq<Seq<char>> {
    if force {
        seq!["--force"@]
    } else {
        Seq::<Seq<char>>::empty()
    }
}

/// The argument list of one BIOS `grub-install` run.
pub open spec fn bios_install_args(
    tmp_root: Seq<char>,
    dev: Seq<char>,
    extra: Seq<Seq<char>>,
    force: bool,
    target: Option<Seq<char>>,
) -> Seq<Seq<char>> {
    seq!["--recheck"@, "--root-directory="@ + tmp_root, dev] + extra + opt_force(force) + (
    match target {
        Some(t) => seq!["--target="@ + t],
        None => Seq::<Seq<char>>::empty(),
    })
}

/// The `grub-install` invocation for one BIOS device.  `tmp_root` is the
/// temporary directory whose `boot` symlink points at the boot path;
/// `canonical_dev` is the device path after symlink resolution.
pub fn bios_install_cmd(
    config: &Config,
    bios: &String,
    bios_target: Option<&String>,
    tmp_root: &str,
    canonical_dev: &str,
) -> (r: CmdSpec)
    ensures
        r.program@ == bios@ + "/sbin/grub-install"@,
        views_of(r.args@) == bios_install_args(
            tmp_root@,
            canonical_dev@,
            views_of(config.extra_grub_install_args@),
            config.force_install,
            match bios_target {
                Some(t) => Some(t@),
                None => None,
            },
        ),
        r.env@ =~= Seq::<(String, String)>::empty(),
{
    let mut program = bios.clone();
    program.append("/sbin/grub-install");
    let mut args: Vec<String> = Vec::new();
    push_arg(&mut args, String::from_str("--recheck"));
    let mut root_dir = String::from_str("--root-directory=");
    root_dir.append(tmp_root);
    push_arg(&mut args, root_dir);
    push_arg(&mut args, String::from_str(canonical_dev));
    let ghost a2 = args@;
    push_all_strings(&mut args, &config.extra_grub_install_args);
    proof {
        lemma_views_concat(a2, config.extra_grub_install_args@);
    }
    if config.force_install {
        push_arg(&mut args, String::from_str("--force"));
    }
    match bios_target {
        Some(t) => {
            let mut ta = String::from_str("--target=");
            ta.append(t.as_str());
            push_arg(&mut args, ta);
        },
        None => {},
    }
    proof {
        assert(views_of(args@) =~= bios_install_args(
            tmp_root@,
            canonical_dev@,
            views_of(config.extra_grub_install_args@),
            config.force_install,
            match bios_target {
                Some(t) => Some(t@),
                None => None,
            },
        ));
    }
    CmdSpec { program, args, env: Vec::new() }
}

/// The argument list of the EFI `grub-install` run.
pub open spec fn efi_install_args(
    boot_path: Seq<char>,
    esp: Seq<char>,
    target: Seq<char>,
    extra: Seq<Seq<char>>,
    force: bool,
    bootloader_id: Seq<char>,
    no_nvram: bool,
    removable: bool,
) -> Seq<Seq<char>> {
    seq![
        "--recheck"@,
        "--target="@ + target,
        "--boot-directory="@ + boot_path,
        "--efi-directory="@ + esp,
    ] + extra + opt_force(force) + seq!["--bootloader-id="@ + bootloader_id] + (if no_nvram {
        seq!["--no-nvram"@] + (if removable {
            seq!["--removable"@]
        } else {
            Seq::<Seq<char>>::empty()
        })
    } else {
        Seq::<Seq<char>>::empty()
    })
}

/// The `grub-install` invocation for the EFI system partition.  NVRAM is
/// left untouched when the firmware variables may not be written, with the
/// removable fallback when asked for.
pub fn efi_install_cmd(config: &Config, efi: &String, efi_target: &String) -> (r: CmdSpec)
    ensures
        r.program@ == efi@ + "/sbin/grub-install"@,
        views_of(r.args@) == efi_install_args(
            config.boot_path@,
            config.efi_sys_mount_point@,
            efi_target@,
            views_of(config.extra_grub_install_args@),
            config.force_install,
            config.bootloader_id@,
            !config.can_touch_efi_variables,
            config.efi_install_as_removable,
        ),
        r.env@ =~= Seq::<(String, String)>::empty(),
{
    let mut program = efi.clone();
    program.append("/sbin/grub-install");
    let mut args: Vec<String> = Vec::new();
    push_arg(&mut args, String::from_str("--recheck"));
    let mut ta = String::from_str("--target=");
    ta.append(efi_target.as_str());
    push_arg(&mut args, ta);
    let mut bd = String::from_str("--boot-directory=");
    bd.append(config.boot_path.as_str());
    push_arg(&mut args, bd);
    let mut ed = String::from_str("--efi-directory=");
    ed.append(config.efi_sys_mount_point.as_str());
    push_arg(&mut args, ed);
    let ghost a3 = args@;
    push_all_strings(&mut args, &config.extra_grub_install_args);
    proof {
        lemma_views_concat(a3, config.extra_grub_install_args@);
    }
    if config.force_install {
        push_arg(&mut args, String::from_str("--force"));
    }
    let mut bi = String::from_str("--bootloader-id=");
    bi.append(config.bootloader_id.as_str());
    push_arg(&mut args, bi);
    if !config.can_touch_efi_variables {
        push_arg(&mut args, String::from_str("--no-nvram"));
        if config.efi_install_as_removable {
            push_arg(&mut args, String::from_str("--removable"));
        }
    }
    proof {
        assert(views_of(args@) =~= efi_install_args(
            config.boot_path@,
            config.efi_sys_mount_point@,
            efi_target@,
            views_of(config.extra_grub_install_args@),
            config.force_install,
            config.bootloader_id@,
            !config.can_touch_efi_variables,
            config.efi_install_as_removable,
        ));
    }
    CmdSpec { program, args, env: Vec::new() }
}

/// The shell line that appends the output of `30_os-prober` to the
/// temporary menu file.
pub open spec fn os_prober_line(pkg: Seq<char>, temp: Seq<char>) -> Seq<char> {
    "pkgdatadir="@ + pkg + "/share/grub "@ + pkg + "/etc/grub.d/30_os-prober >> "@ + temp
}

/// The `os-prober` helper invocation, run through the configured shell.
/// `GRUB_SAVEDEFAULT` is exported when the saved default entry is in use.
pub fn os_prober_cmd(config: &Config, target_package: &String, temp_path: &str) -> (r: CmdSpec)
    ensures
        r.program@ == config.shell@,
        views_of(r.args@) == seq!["-c"@, os_prober_line(target_package@, temp_path@)],
        config.default_entry@ == "saved"@ ==> views_of_pairs(r.env@) == seq![
            ("GRUB_SAVEDEFAULT"@, "true"@),
        ],
        config.default_entry@ != "saved"@ ==> r.env@.len() == 0,
{
    let mut line = String::from_str("pkgdatadir=");
    line.append(target_package.as_str());
    line.append("/share/grub ");
    line.append(target_package.as_str());
    line.append("/etc/grub.d/30_os-prober >> ");
    line.append(temp_path);
    let mut args: Vec<String> = Vec::new();
    push_arg(&mut args, String::from_str("-c"));
    push_arg(&mut args, line);
    proof {
        assert(views_of(args@) =~= seq!["-c"@, os_prober_line(target_package@, temp_path@)]);
    }
    let mut env: Vec<(String, String)> = Vec::new();
    if config.save_default() {
        env.push((String::from_str("GRUB_SAVEDEFAULT"), String::from_str("true")));
        proof {
            assert(views_of_pairs(env@) =~= seq![("GRUB_SAVEDEFAULT"@, "true"@)]);
        }
    }
    CmdSpec { program: config.shell.clone(), args, env }
}

/// The views of a sequence of string pairs.
pub open spec fn views_of_pairs(s: Seq<(String, String)>) -> Seq<(Seq<char>, Seq<char>)> {
    s.map_values(|p: (String, String)| (p.0@, p.1@))
}

/// The preparation command: `extra_prepare_config` with `@bootPath@`
/// substituted, run through the shell; nothing to run when the substituted
/// text is empty.
pub fn prepare_config_cmd(config: &Config) -> (r: Option<CmdSpec>)
    ensures
        ({
            let sub = replace_seq(config.extra_prepare_config@, "@bootPath@"@, config.boot_path@);
            match r {
                Some(c) => {
                    &&& sub.len() > 0
                    &&& c.program@ == config.shell@
                    &&& views_of(c.args@) == seq!["-c"@, sub]
                    &&& c.env@.len() == 0
                },
                None => sub.len() == 0,
            }
        }),
{
    proof {
        reveal_strlit("@bootPath@");
    }
    let sub = replace_all(config.extra_prepare_config.as_str(), "@bootPath@", config.boot_path.as_str());
    if sub.as_str().unicode_len() == 0 {
        return None;
    }
    let mut args: Vec<String> = Vec::new();
    push_arg(&mut args, String::from_str("-c"));
    push_arg(&mut args, sub);
    proof {
        assert(views_of(args@) =~= seq![
            "-c"@,
            replace_seq(config.extra_prepare_config@, "@bootPath@"@, config.boot_path@),
        ]);
    }
    Some(CmdSpec { program: config.shell.clone(), args, env: Vec::new() })
}

// ---------------------------------------------------------------------------
// Device selection and kernel-directory cleanup
// ---------------------------------------------------------------------------

/// The devices actually installed to: every configured device but the
/// literal `nodev`.
pub open spec fn non_nodev(devs: Seq<Seq<char>>) -> Seq<Seq<char>>
    decreases devs.len(),
{
    if devs.len() == 0 {
        Seq::<Seq<char>>::empty()
    } else if devs[0] == "nodev"@ {
        non_nodev(devs.drop_first())
    } else {
        seq![devs[0]] + non_nodev(devs.drop_first())
    }
}

/// The configured devices that BIOS GRUB is installed on, in order,
/// skipping the literal `nodev`.
pub fn devices_to_install(config: &Config) -> (r: Vec<String>)
    ensures
        views_of(r@) == non_nodev(views_of(config.devices@)),
{
    let ghost ds = views_of(config.devices@);
    let mut out: Vec<String> = Vec::new();
    let mut i: usize = 0;
    proof {
        assert(ds.subrange(0, ds.len() as int) =~= ds);
        assert(views_of(out@) =~= Seq::<Seq<char>>::empty());
        assert(views_of(out@) + non_nodev(ds) =~= non_nodev(ds));
    }
    while i < config.devices.len()
        invariant
            i <= ds.len(),
            ds == views_of(config.devices@),
            config.devices@.len() == ds.len(),
            non_nodev(ds) =~= views_of(out@) + non_nodev(ds.subrange(i as int, ds.len() as int)),
        decreases ds.len() - i,
    {
        let ghost tail = ds.subrange(i as int, ds.len() as int);
        proof {
            assert(tail[0] == ds[i as int]);
            assert(ds[i as int] == config.devices@[i as int]@);
            assert(tail.drop_first() =~= ds.subrange(i + 1 as int, ds.len() as int));
        }
        if !str_eq(config.devices[i].as_str(), "nodev") {
            let ghost o0 = out@;
            out.push(config.devices[i].clone());
            proof {
                lemma_views_push(o0, config.devices@[i as int]);
                assert(non_nodev(tail) =~= seq![tail[0]] + non_nodev(tail.drop_first()));
                assert(non_nodev(ds) =~= views_of(out@) + non_nodev(
                    ds.subrange(i + 1 as int, ds.len() as int),
                ));
            }
        } else {
            proof {
                assert(non_nodev(tail) =~= non_nodev(tail.drop_first()));
            }
        }
        i = i + 1;
    }
    proof {
        assert(ds.subrange(ds.len() as int, ds.len() as int) =~= Seq::<Seq<char>>::empty());
        assert(non_nodev(Seq::<Seq<char>>::empty()) =~= Seq::<Seq<char>>::empty());
        assert(views_of(out@) + Seq::<Seq<char>>::empty() =~= views_of(out@));
    }
    out
}

/// The entries of `listing` that are not in `copied`.
pub open spec fn not_retained(listing: Seq<Seq<char>>, copied: Seq<Seq<char>>) -> Seq<Seq<char>>
    decreases listing.len(),
{
    if listing.len() == 0 {
        Seq::<Seq<char>>::empty()
    } else if copied.contains(listing[0]) {
        not_retained(listing.drop_first(), copied)
    } else {
        seq![listing[0]] + not_retained(listing.drop_first(), copied)
    }
}

/// True exactly when some element of `v` holds the characters of `x`.
pub fn contains_str(v: &Vec<String>, x: &String) -> (r: bool)
    ensures
        r == views_of(v@).contains(x@),
{
    let mut i: usize = 0;
    while i < v.len()
        invariant
            i <= v@.len(),
            forall|j: int| 0 <= j < i ==> views_of(v@)[j] != x@,
        decreases v@.len() - i,
    {
        if str_eq(v[i].as_str(), x.as_str()) {
            proof {
                assert(views_of(v@)[i as int] == x@);
            }
            return true;
        }
        proof {
            assert(views_of(v@)[i as int] == v@[i as int]@);
        }
        i = i + 1;
    }
    proof {
        if views_of(v@).contains(x@) {
            let j = choose|j: int| 0 <= j < views_of(v@).len() && views_of(v@)[j] == x@;
            assert(views_of(v@)[j] != x@);
        }
    }
    false
}

/// The files under the kernels directory that this run did not place or
/// retain: everything in `listing` that is not in `copied`.  These are the
/// obsolete files to delete after the new menu is in place.
pub fn obsolete_kernels(listing: &Vec<String>, copied: &Vec<String>) -> (r: Vec<String>)
    ensures
        views_of(r@) == not_retained(views_of(listing@), views_of(copied@)),
{
    let ghost ls = views_of(listing@);
    let ghost cp = views_of(copied@);
    let mut out: Vec<String> = Vec::new();
    let mut i: usize = 0;
    proof {
        assert(ls.subrange(0, ls.len() as int) =~= ls);
        assert(views_of(out@) =~= Seq::<Seq<char>>::empty());
        assert(views_of(out@) + not_retained(ls, cp) =~= not_retained(ls, cp));
    }
    while i < listing.len()
        invariant
            i <= ls.len(),
            ls == views_of(listing@),
            cp == views_of(copied@),
            listing@.len() == ls.len(),
            not_retained(ls, cp) =~= views_of(out@) + not_retained(
                ls.subrange(i as int, ls.len() as int),
                cp,
            ),
        decreases ls.len() - i,
    {
        let ghost tail = ls.subrange(i as int, ls.len() as int);
        proof {
            assert(tail[0] == ls[i as int]);
            assert(ls[i as int] == listing@[i as int]@);
            assert(tail.drop_first() =~= ls.subrange(i + 1 as int, ls.len() as int));
        }
        if contains_str(copied, &listing[i]) {
            proof {
                assert(not_retained(tail, cp) =~= not_retained(tail.drop_first(), cp));
            }
        } else {
            let ghost o0 = out@;
            out.push(listing[i].clone());
            proof {
                lemma_views_push(o0, listing@[i as int]);
                assert(not_retained(tail, cp) =~= seq![tail[0]] + not_retained(
                    tail.drop_first(),
                    cp,
                ));
                assert(not_retained(ls, cp) =~= views_of(out@) + not_retained(
                    ls.subrange(i + 1 as int, ls.len() as int),
                    cp,
                ));
            }
        }
        i = i + 1;
    }
    proof {
        assert(ls.subrange(ls.len() as int, ls.len() as int) =~= Seq::<Seq<char>>::empty());
        assert(not_retained(Seq::<Seq<char>>::empty(), cp) =~= Seq::<Seq<char>>::empty());
        assert(views_of(out@) + Seq::<Seq<char>>::empty() =~= views_of(out@));
    }
    out
}

/// Membership in a non-empty sequence: the head, or membership in the
/// rest.
proof fn lemma_contains_split(s: Seq<Seq<char>>, x: Seq<char>)
    requires
        s.len() > 0,
    ensures
        s.contains(x) <==> (s[0] == x || s.drop_first().contains(x)),
{
    if s.contains(x) {
        let j = choose|j: int| 0 <= j < s.len() && s[j] == x;
        if j > 0 {
            assert(s.drop_first()[j - 1] == x);
        }
    }
    if s.drop_first().contains(x) {
        let j = choose|j: int| 0 <= j < s.drop_first().len() && s.drop_first()[j] == x;
        assert(s[j + 1] == x);
    }
}

/// A file under the kernels directory is obsolete exactly when it was
/// neither placed nor retained by this run: the deleted set and the
/// copied-paths set partition the directory listing.
pub proof fn lemma_obsolete_partition(listing: Seq<Seq<char>>, copied: Seq<Seq<char>>)
    ensures
        forall|x: Seq<char>|
            #[trigger] not_retained(listing, copied).contains(x) <==> (listing.contains(x)
                && !copied.contains(x)),
    decreases listing.len(),
{
    if listing.len() == 0 {
        assert forall|x: Seq<char>| #[trigger]
            not_retained(listing, copied).contains(x) <==> (listing.contains(x)
                && !copied.contains(x)) by {
            assert(!not_retained(listing, copied).contains(x));
            assert(!listing.contains(x));
        }
    } else {
        lemma_obsolete_partition(listing.drop_first(), copied);
        assert forall|x: Seq<char>| #[trigger]
            not_retained(listing, copied).contains(x) <==> (listing.contains(x)
                && !copied.contains(x)) by {
            lemma_contains_split(listing, x);
            if copied.contains(listing[0]) {
                assert(not_retained(listing, copied) == not_retained(
                    listing.drop_first(),
                    copied,
                ));
            } else {
                let nr = not_retained(listing, copied);
                assert(nr == seq![listing[0]] + not_retained(listing.drop_first(), copied));
                assert(nr.len() > 0 && nr[0] == listing[0]);
                assert(nr.drop_first() =~= not_retained(listing.drop_first(), copied));
                lemma_contains_split(nr, x);
            }
        }
    }
}

} // verus!
