//! Menu entries: the current system, historical generations and their
//! specialisations, and per-profile sub-menus.

use vstd::prelude::*;
use vstd::string::StrSliceExecFns;
use vstd::string::StringExecFns;
use crate::builder::{Builder, Action, ActionV, action_views, lemma_action_views_push};
use crate::config::is_prefix;
use crate::strings::{
    str_eq,
    chars_of,
    string_from_chars,
    copy_range,
    push_char,
    views_of,
    lemma_views_push,
    dec_digits,
    u64_to_string,
    parse_uint,
    is_uint_literal,
    uint_val,
    lex_le,
    chars_le,
    replace_all,
    replace_seq,
};

verus! {

/// The plain facts about one bootable configuration, gathered by the
/// caller from the generation's directory.  `kernel`, `initrd`, `xen` and
/// `init` are canonicalised paths (`kernel`/`initrd`/`xen` are `None` when
/// the file is absent); `kernel_params` is the parameter file's text;
/// `secrets_hook` says whether an executable `append-initrd-secrets` hook
/// exists, and when it does (and this is no dry run) the caller has run it
/// against a fresh temporary file, reporting its exit status and the
/// file's resulting size; `system_name` is the file name of the
/// canonicalised generation directory.
pub struct GenFacts {
    pub kernel: Option<String>,
    pub initrd: Option<String>,
    pub init: String,
    pub kernel_params: String,
    pub xen: Option<String>,
    pub xen_params: String,
    pub secrets_hook: bool,
    pub hook_status_ok: bool,
    pub hook_tmp_len: u64,
    pub system_name: String,
}

/// One specialisation of a generation.
pub struct SpecFacts {
    pub dir_name: String,
    pub date: String,
    pub version: Option<String>,
    pub fallback_version: Option<String>,
    pub config_name: Option<String>,
    pub facts: GenFacts,
}

/// One numbered generation of a profile.
pub struct GenEntry {
    pub number: u32,
    pub date: String,
    pub version: Option<String>,
    pub facts: GenFacts,
    pub specialisations: Vec<SpecFacts>,
}

/// One additional profile: its directory name and its generations.
pub struct ProfileInput {
    pub name: String,
    pub entries: Vec<GenEntry>,
}

// ---------------------------------------------------------------------------
// Staging: where a store path lives under the boot partition
// ---------------------------------------------------------------------------

pub open spec fn is_store_path(p: Seq<char>) -> bool {
    is_prefix("/nix/store/"@, p)
}

pub open spec fn store_rel(p: Seq<char>) -> Seq<char> {
    p.subrange("/nix/store/"@.len() as int, p.len() as int)
}

/// The store-relative path with slashes turned into dashes: the file's
/// content-addressed name under the kernels directory.
pub open spec fn mangle(rel: Seq<char>) -> Seq<char> {
    rel.map_values(|c: char| if c == '/' { '-' } else { c })
}

/// Where GRUB sees a staged store path: through the store pair when one
/// exists, else under the kernels directory of the boot pair.
pub open spec fn staged_grub(store: Option<Seq<char>>, gb: Seq<char>, p: Seq<char>) -> Seq<char> {
    match store {
        Some(sp) => sp + seq!['/'] + store_rel(p),
        None => gb + "/kernels/"@ + mangle(store_rel(p)),
    }
}

/// The host destination of a staged copy.
pub open spec fn staged_dst(boot: Seq<char>, p: Seq<char>) -> Seq<char> {
    boot + "/kernels/"@ + mangle(store_rel(p))
}

impl Builder {
    /// Resolves a canonicalised store path: the GRUB-visible path, and the
    /// copy destination when the kernels directory is in use.  A path
    /// outside the store is rejected.
    pub fn copy_to_kernels_dir(&self, p: &String) -> (r: Result<(String, Option<String>), String>)
        ensures
            match r {
                Ok(g) => {
                    &&& is_store_path(p@)
                    &&& g.0@ == staged_grub(
                        match self.grub_store {
                            Some(pp) => Some(pp.path@),
                            None => None,
                        },
                        self.grub_boot.path@,
                        p@,
                    )
                    &&& match self.grub_store {
                        Some(_) => g.1 is None,
                        None => g.1 matches Some(d) && d@ == staged_dst(self.config.boot_path@, p@),
                    }
                },
                Err(e) => {
                    &&& !is_store_path(p@)
                    &&& e@ == "Path "@ + p@ + " is not in /nix/store!"@
                },
            },
    {
        let cs = chars_of(p.as_str());
        let pre = chars_of("/nix/store/");
        if !crate::strings::has_prefix(&cs, &pre) {
            let mut m = String::from_str("Path ");
            m.append(p.as_str());
            m.append(" is not in /nix/store!");
            proof {
                assert(m@ =~= "Path "@ + p@ + " is not in /nix/store!"@);
            }
            return Err(m);
        }
        let rel = copy_range(&cs, pre.len(), cs.len());
        match &self.grub_store {
            Some(store) => {
                let mut g = store.path.clone();
                push_char(&mut g, '/');
                let rs = string_from_chars(&rel);
                g.append(rs.as_str());
                proof {
                    assert(g@ =~= staged_grub(
                        Some(self.grub_store->Some_0.path@),
                        self.grub_boot.path@,
                        p@,
                    ));
                }
                Ok((g, None))
            },
            None => {
                let mut name: Vec<char> = Vec::new();
                let mut i: usize = 0;
                while i < rel.len()
                    invariant
                        i <= rel@.len(),
                        name@ == rel@.subrange(0, i as int).map_values(
                            |c: char| if c == '/' {
                                '-'
                            } else {
                                c
                            },
                        ),
                    decreases rel@.len() - i,
                {
                    let c: char = rel[i];
                    name.push(
                        if c == '/' {
                            '-'
                        } else {
                            c
                        },
                    );
                    proof {
                        assert(name@ =~= rel@.subrange(0, i + 1 as int).map_values(
                            |c: char| if c == '/' {
                                '-'
                            } else {
                                c
                            },
                        ));
                    }
                    i = i + 1;
                }
                proof {
                    assert(rel@.subrange(0, rel@.len() as int) =~= rel@);
                    assert(name@ =~= mangle(store_rel(p@)));
                }
                let ns = string_from_chars(&name);
                let mut g = self.grub_boot.path.clone();
                g.append("/kernels/");
                g.append(ns.as_str());
                let mut d = self.config.boot_path.clone();
                d.append("/kernels/");
                d.append(ns.as_str());
                proof {
                    assert(g@ =~= staged_grub(
                        None::<Seq<char>>,
                        self.grub_boot.path@,
                        p@,
                    ));
                    assert(d@ =~= staged_dst(self.config.boot_path@, p@));
                }
                Ok((g, Some(d)))
            },
        }
    }
}

// ---------------------------------------------------------------------------
// One menu entry
// ---------------------------------------------------------------------------

/// What the entry logic reads of the builder.
pub struct EntryCtx {
    pub save_default: bool,
    pub boot_search: Seq<char>,
    pub boot_grub: Seq<char>,
    pub boot_path: Seq<char>,
    pub store: Option<(Seq<char>, Seq<char>)>,
    pub extra: Option<Seq<char>>,
    pub dry_run: bool,
}

pub open spec fn ctx_of(b: Builder) -> EntryCtx {
    EntryCtx {
        save_default: b.config.default_entry@ == "saved"@,
        boot_search: b.grub_boot.search@,
        boot_grub: b.grub_boot.path@,
        boot_path: b.config.boot_path@,
        store: match b.grub_store {
            Some(pp) => Some((pp.path@, pp.search@)),
            None => None,
        },
        extra: match b.config.extra_per_entry_config {
            Some(c) => Some(c@),
            None => None,
        },
        dry_run: b.dry_run,
    }
}

pub open spec fn store_path_of(c: EntryCtx) -> Option<Seq<char>> {
    match c.store {
        Some(p) => Some(p.0),
        None => None,
    }
}

/// Whether the initrd-secrets file is part of this entry: a present hook
/// always counts on a dry run; otherwise a failed hook is fatal for the
/// current system (`None`), tolerated for older generations, and the file
/// is included exactly when the hook produced a non-empty one.
pub open spec fn secrets_included(f: GenFacts, dry_run: bool, current: bool) -> Option<bool> {
    if !f.secrets_hook {
        Some(false)
    } else if dry_run {
        Some(true)
    } else if !f.hook_status_ok && current {
        None
    } else {
        Some(f.hook_tmp_len > 0)
    }
}

/// The kernel parameter line: the canonicalised init path, then the
/// parameter file's text.
pub open spec fn params_of(f: GenFacts) -> Seq<char> {
    "init="@ + f.init@ + seq![' '] + f.kernel_params@
}

/// The opening of one `menuentry` block, through the per-entry extras.
pub open spec fn entry_head_text(
    name: Seq<char>,
    options: Seq<char>,
    savedefault: bool,
    boot_search: Seq<char>,
    store_search: Option<Seq<char>>,
    extra: Option<Seq<char>>,
) -> Seq<char> {
    "menuentry \""@ + name + "\" "@ + options + " {\n"@ + (if savedefault {
        "  savedefault\n"@
    } else {
        Seq::<char>::empty()
    }) + boot_search + seq!['\n'] + (match store_search {
        Some(s) => s + seq!['\n'],
        None => Seq::<char>::empty(),
    }) + (match extra {
        Some(c) => "  "@ + c + seq!['\n'],
        None => Seq::<char>::empty(),
    })
}

/// The boot lines of one `menuentry` block, and its closing brace.
pub open spec fn entry_tail_text(
    xen: Option<(Seq<char>, Seq<char>)>,
    kernel_g: Seq<char>,
    params: Seq<char>,
    initrd_g: Seq<char>,
    secrets_g: Seq<char>,
) -> Seq<char> {
    (match xen {
        Some(x) => "  multiboot "@ + x.0 + seq![' '] + x.1 + seq!['\n'] + "  module "@ + kernel_g
            + seq![' '] + params + seq!['\n'] + "  module "@ + initrd_g + seq![' '] + secrets_g
            + seq!['\n'],
        None => "  linux "@ + kernel_g + seq![' '] + params + seq!['\n'] + "  initrd "@ + initrd_g
            + seq![' '] + secrets_g + seq!['\n'],
    }) + "}\n\n"@
}

/// The text of one `menuentry` block.
pub open spec fn entry_body_text(
    name: Seq<char>,
    options: Seq<char>,
    savedefault: bool,
    boot_search: Seq<char>,
    store_search: Option<Seq<char>>,
    extra: Option<Seq<char>>,
    xen: Option<(Seq<char>, Seq<char>)>,
    kernel_g: Seq<char>,
    params: Seq<char>,
    initrd_g: Seq<char>,
    secrets_g: Seq<char>,
) -> Seq<char> {
    entry_head_text(name, options, savedefault, boot_search, store_search, extra)
        + entry_tail_text(xen, kernel_g, params, initrd_g, secrets_g)
}

/// The GRUB path of the entry's secrets file.
pub open spec fn secrets_grub(c: EntryCtx, f: GenFacts) -> Seq<char> {
    c.boot_grub + "/kernels/"@ + f.system_name@ + "-secrets"@
}

/// The host path of the entry's secrets file.
pub open spec fn secrets_dst(c: EntryCtx, f: GenFacts) -> Seq<char> {
    c.boot_path + "/kernels/"@ + f.system_name@ + "-secrets"@
}

/// What one entry appends to the menu: nothing when kernel or initrd is
/// missing, `None` on a path outside the store or a fatal secrets hook.
pub open spec fn entry_render(
    c: EntryCtx,
    name: Seq<char>,
    options: Seq<char>,
    current: bool,
    f: GenFacts,
) -> Option<Seq<char>> {
    match (f.kernel, f.initrd) {
        (Some(k), Some(ii)) => {
            if !is_store_path(k@) || !is_store_path(ii@) || (match f.xen {
                Some(x) => !is_store_path(x@),
                None => false,
            }) {
                None
            } else {
                match secrets_included(f, c.dry_run, current) {
                    None => None,
                    Some(inc) => {
                        let kg = staged_grub(store_path_of(c), c.boot_grub, k@);
                        let ig = staged_grub(store_path_of(c), c.boot_grub, ii@);
                        let sg = if inc {
                            secrets_grub(c, f)
                        } else {
                            Seq::<char>::empty()
                        };
                        let xg = match f.xen {
                            Some(x) => Some(
                                (staged_grub(store_path_of(c), c.boot_grub, x@), f.xen_params@),
                            ),
                            None => None,
                        };
                        Some(
                            entry_body_text(
                                name,
                                options,
                                c.save_default,
                                c.boot_search,
                                match c.store {
                                    Some(p) => Some(p.1),
                                    None => None,
                                },
                                c.extra,
                                xg,
                                kg,
                                params_of(f),
                                ig,
                                sg,
                            ),
                        )
                    },
                }
            }
        },
        _ => Some(Seq::<char>::empty()),
    }
}

/// The copied-paths the entry records, in order: kernel, initrd, secrets,
/// Xen (kernel-directory copies only when no store pair exists; the
/// secrets file only when included outside a dry run).
pub open spec fn entry_copied_add(c: EntryCtx, current: bool, f: GenFacts) -> Seq<Seq<char>> {
    match (f.kernel, f.initrd) {
        (Some(k), Some(ii)) => {
            let inc = match secrets_included(f, c.dry_run, current) {
                Some(b) => b,
                None => false,
            };
            (if store_path_of(c) is None {
                seq![staged_dst(c.boot_path, k@), staged_dst(c.boot_path, ii@)]
            } else {
                Seq::<Seq<char>>::empty()
            }) + (if inc && !c.dry_run {
                seq![secrets_dst(c, f)]
            } else {
                Seq::<Seq<char>>::empty()
            }) + (match f.xen {
                Some(x) => if store_path_of(c) is None {
                    seq![staged_dst(c.boot_path, x@)]
                } else {
                    Seq::<Seq<char>>::empty()
                },
                None => Seq::<Seq<char>>::empty(),
            })
        },
        _ => Seq::<Seq<char>>::empty(),
    }
}

/// The actions the entry plans, in the same order as the copied paths.
pub open spec fn entry_actions_add(c: EntryCtx, current: bool, f: GenFacts) -> Seq<ActionV> {
    match (f.kernel, f.initrd) {
        (Some(k), Some(ii)) => {
            let inc = match secrets_included(f, c.dry_run, current) {
                Some(b) => b,
                None => false,
            };
            (if store_path_of(c) is None {
                seq![
                    ActionV::CopyIfMissingV(k@, staged_dst(c.boot_path, k@)),
                    ActionV::CopyIfMissingV(ii@, staged_dst(c.boot_path, ii@)),
                ]
            } else {
                Seq::<ActionV>::empty()
            }) + (if inc && !c.dry_run {
                seq![ActionV::PlaceSecretsV(secrets_dst(c, f))]
            } else {
                Seq::<ActionV>::empty()
            }) + (match f.xen {
                Some(x) => if store_path_of(c) is None {
                    seq![ActionV::CopyIfMissingV(x@, staged_dst(c.boot_path, x@))]
                } else {
                    Seq::<ActionV>::empty()
                },
                None => Seq::<ActionV>::empty(),
            })
        },
        _ => Seq::<ActionV>::empty(),
    }
}

impl Builder {
    /// Appends one `menuentry` block for a generation, staging its kernel,
    /// initrd, secrets and Xen files.  On an error nothing changes.
    #[verifier::rlimit(100)]
    pub fn add_entry(
        &mut self,
        name: &String,
        options: &String,
        current: bool,
        f: &GenFacts,
    ) -> (r: Result<(), String>)
        ensures
            match r {
                Ok(_) => {
                    &&& entry_render(ctx_of(*old(self)), name@, options@, current, *f)
                        matches Some(t) && final(self).inner@ == old(self).inner@ + t
                    &&& views_of(final(self).copied@) == views_of(old(self).copied@)
                        + entry_copied_add(ctx_of(*old(self)), current, *f)
                    &&& action_views(final(self).actions@) == action_views(old(self).actions@)
                        + entry_actions_add(ctx_of(*old(self)), current, *f)
                    &&& *final(self) == (Builder {
                        inner: final(self).inner,
                        copied: final(self).copied,
                        actions: final(self).actions,
                        ..*old(self)
                    })
                },
                Err(e) => {
                    &&& entry_render(ctx_of(*old(self)), name@, options@, current, *f) is None
                    &&& *final(self) == *old(self)
                },
            },
    {
        let ghost c = ctx_of(*self);
        let kernel: String = match &f.kernel {
            Some(k) => k.clone(),
            None => {
                proof {
                    assert(self.inner@ =~= self.inner@ + Seq::<char>::empty());
                    assert(views_of(self.copied@) =~= views_of(self.copied@) + entry_copied_add(
                        c,
                        current,
                        *f,
                    ));
                    assert(action_views(self.actions@) =~= action_views(self.actions@)
                        + entry_actions_add(c, current, *f));
                }
                return Ok(());
            },
        };
        let initrd: String = match &f.initrd {
            Some(ii) => ii.clone(),
            None => {
                proof {
                    assert(self.inner@ =~= self.inner@ + Seq::<char>::empty());
                    assert(views_of(self.copied@) =~= views_of(self.copied@) + entry_copied_add(
                        c,
                        current,
                        *f,
                    ));
                    assert(action_views(self.actions@) =~= action_views(self.actions@)
                        + entry_actions_add(c, current, *f));
                }
                return Ok(());
            },
        };
        let (kernel_g, kernel_d) = self.copy_to_kernels_dir(&kernel)?;
        let (initrd_g, initrd_d) = self.copy_to_kernels_dir(&initrd)?;
        let xen_staged: Option<(String, Option<String>)> = match &f.xen {
            Some(x) => Some(self.copy_to_kernels_dir(x)?),
            None => None,
        };
        // secrets decision
        let secrets_inc: bool = if !f.secrets_hook {
            false
        } else if self.dry_run {
            true
        } else {
            if !f.hook_status_ok && current {
                return Err(String::from_str("Failed to create initrd secrets"));
            }
            f.hook_tmp_len > 0
        };
        // from here on nothing can fail: record and emit
        let ghost c0 = views_of(self.copied@);
        let ghost a0 = action_views(self.actions@);
        self.record_stage(&kernel, &kernel_d);
        self.record_stage(&initrd, &initrd_d);
        let secrets_g: Option<String> = self.record_secrets(f, secrets_inc);
        match (&f.xen, &xen_staged) {
            (Some(x), Some(st)) => {
                let xd = match &st.1 {
                    Some(d) => Some(d.clone()),
                    None => None,
                };
                self.record_stage(x, &xd);
            },
            _ => {},
        }
        proof {
            let partA = if store_path_of(c) is None {
                seq![
                    staged_dst(c.boot_path, f.kernel->Some_0@),
                    staged_dst(c.boot_path, f.initrd->Some_0@),
                ]
            } else {
                Seq::<Seq<char>>::empty()
            };
            let partB = if secrets_inc && !c.dry_run {
                seq![secrets_dst(c, *f)]
            } else {
                Seq::<Seq<char>>::empty()
            };
            let partC = match &f.xen {
                Some(x) => if store_path_of(c) is None {
                    seq![staged_dst(c.boot_path, x@)]
                } else {
                    Seq::<Seq<char>>::empty()
                },
                None => Seq::<Seq<char>>::empty(),
            };
            assert(secrets_inc == (match secrets_included(*f, c.dry_run, current) {
                Some(b) => b,
                None => false,
            }));
            assert(views_of(self.copied@) =~= c0 + partA + partB + partC);
            assert(entry_copied_add(c, current, *f) =~= partA + partB + partC);
            assert(views_of(self.copied@) =~= c0 + entry_copied_add(c, current, *f));
            let partAa = if store_path_of(c) is None {
                seq![
                    ActionV::CopyIfMissingV(
                        f.kernel->Some_0@,
                        staged_dst(c.boot_path, f.kernel->Some_0@),
                    ),
                    ActionV::CopyIfMissingV(
                        f.initrd->Some_0@,
                        staged_dst(c.boot_path, f.initrd->Some_0@),
                    ),
                ]
            } else {
                Seq::<ActionV>::empty()
            };
            let partBa = if secrets_inc && !c.dry_run {
                seq![ActionV::PlaceSecretsV(secrets_dst(c, *f))]
            } else {
                Seq::<ActionV>::empty()
            };
            let partCa = match &f.xen {
                Some(x) => if store_path_of(c) is None {
                    seq![ActionV::CopyIfMissingV(x@, staged_dst(c.boot_path, x@))]
                } else {
                    Seq::<ActionV>::empty()
                },
                None => Seq::<ActionV>::empty(),
            };
            assert(action_views(self.actions@) =~= a0 + partAa + partBa + partCa);
            assert(entry_actions_add(c, current, *f) =~= partAa + partBa + partCa);
            assert(action_views(self.actions@) =~= a0 + entry_actions_add(c, current, *f));
        }
        // emit
        let ghost base = self.inner@;
        let xen_line: Option<(String, String)> = match &xen_staged {
            Some(st) => Some((st.0.clone(), f.xen_params.clone())),
            None => None,
        };
        let sg_str: String = match &secrets_g {
            Some(sg) => sg.clone(),
            None => String::new(),
        };
        self.emit_entry(name, options, &xen_line, &kernel_g, &initrd_g, &sg_str, f);
        proof {
            assert(self.inner@ =~= base + (entry_render(c, name@, options@, current, *f)->Some_0));
        }
        Ok(())
    }

    /// Records one planned kernel-directory copy, when there is one.
    fn record_stage(&mut self, src: &String, d: &Option<String>)
        ensures
            views_of(final(self).copied@) =~= views_of(old(self).copied@) + (match d {
                Some(dd) => seq![dd@],
                None => Seq::<Seq<char>>::empty(),
            }),
            action_views(final(self).actions@) =~= action_views(old(self).actions@) + (match d {
                Some(dd) => seq![ActionV::CopyIfMissingV(src@, dd@)],
                None => Seq::<ActionV>::empty(),
            }),
            *final(self) == (Builder {
                copied: final(self).copied,
                actions: final(self).actions,
                ..*old(self)
            }),
    {
        match d {
            Some(dd) => {
                let ghost cp = self.copied@;
                let ghost ap = self.actions@;
                self.copied.push(dd.clone());
                self.actions.push(Action::CopyIfMissing { src: src.clone(), dst: dd.clone() });
                proof {
                    lemma_views_push(cp, self.copied@.last());
                    lemma_action_views_push(ap, self.actions@.last());
                }
            },
            None => {
                proof {
                    assert(views_of(self.copied@) =~= views_of(self.copied@)
                        + Seq::<Seq<char>>::empty());
                    assert(action_views(self.actions@) =~= action_views(self.actions@)
                        + Seq::<ActionV>::empty());
                }
            },
        }
    }

    /// Records the secrets file and computes its GRUB path, when the
    /// entry carries one.
    fn record_secrets(&mut self, f: &GenFacts, inc: bool) -> (sg: Option<String>)
        ensures
            views_of(final(self).copied@) =~= views_of(old(self).copied@) + (if inc && !old(
                self,
            ).dry_run {
                seq![secrets_dst(ctx_of(*old(self)), *f)]
            } else {
                Seq::<Seq<char>>::empty()
            }),
            action_views(final(self).actions@) =~= action_views(old(self).actions@) + (if inc
                && !old(self).dry_run {
                seq![ActionV::PlaceSecretsV(secrets_dst(ctx_of(*old(self)), *f))]
            } else {
                Seq::<ActionV>::empty()
            }),
            match sg {
                Some(s) => inc && s@ == secrets_grub(ctx_of(*old(self)), *f),
                None => !inc,
            },
            *final(self) == (Builder {
                copied: final(self).copied,
                actions: final(self).actions,
                ..*old(self)
            }),
    {
        if !inc {
            proof {
                assert(views_of(self.copied@) =~= views_of(self.copied@)
                    + Seq::<Seq<char>>::empty());
                assert(action_views(self.actions@) =~= action_views(self.actions@)
                    + Seq::<ActionV>::empty());
            }
            return None;
        }
        let mut sname = f.system_name.clone();
        sname.append("-secrets");
        let mut sg = self.grub_boot.path.clone();
        sg.append("/kernels/");
        sg.append(sname.as_str());
        proof {
            assert(sg@ =~= secrets_grub(ctx_of(*old(self)), *f));
        }
        if !self.dry_run {
            let mut sd = self.config.boot_path.clone();
            sd.append("/kernels/");
            sd.append(sname.as_str());
            proof {
                assert(sd@ =~= secrets_dst(ctx_of(*old(self)), *f));
            }
            let ghost cp = self.copied@;
            let ghost ap = self.actions@;
            self.copied.push(sd.clone());
            self.actions.push(Action::PlaceSecrets { dst: sd });
            proof {
                lemma_views_push(cp, self.copied@.last());
                lemma_action_views_push(ap, self.actions@.last());
                assert(views_of(self.copied@) =~= views_of(cp) + seq![
                    secrets_dst(ctx_of(*old(self)), *f),
                ]);
                assert(action_views(self.actions@) =~= action_views(ap) + seq![
                    ActionV::PlaceSecretsV(secrets_dst(ctx_of(*old(self)), *f)),
                ]);
            }
        } else {
            proof {
                assert(views_of(self.copied@) =~= views_of(self.copied@)
                    + Seq::<Seq<char>>::empty());
                assert(action_views(self.actions@) =~= action_views(self.actions@)
                    + Seq::<ActionV>::empty());
            }
        }
        Some(sg)
    }

    /// Emits one `menuentry` block from already-staged paths.
    fn emit_entry(
        &mut self,
        name: &String,
        options: &String,
        xen_line: &Option<(String, String)>,
        kernel_g: &String,
        initrd_g: &String,
        secrets_g: &String,
        f: &GenFacts,
    )
        ensures
            final(self).inner@ == old(self).inner@ + entry_body_text(
                name@,
                options@,
                old(self).config.default_entry@ == "saved"@,
                old(self).grub_boot.search@,
                match old(self).grub_store {
                    Some(pp) => Some(pp.search@),
                    None => None,
                },
                match old(self).config.extra_per_entry_config {
                    Some(cc) => Some(cc@),
                    None => None,
                },
                match xen_line {
                    Some(x) => Some((x.0@, x.1@)),
                    None => None,
                },
                kernel_g@,
                params_of(*f),
                initrd_g@,
                secrets_g@,
            ),
            *final(self) == (Builder { inner: final(self).inner, ..*old(self) }),
    {
        self.emit_entry_head(name, options);
        self.emit_entry_tail(xen_line, kernel_g, initrd_g, secrets_g, f);
    }

    /// Emits the opening of a `menuentry` block.
    fn emit_entry_head(&mut self, name: &String, options: &String)
        ensures
            final(self).inner@ == old(self).inner@ + entry_head_text(
                name@,
                options@,
                old(self).config.default_entry@ == "saved"@,
                old(self).grub_boot.search@,
                match old(self).grub_store {
                    Some(pp) => Some(pp.search@),
                    None => None,
                },
                match old(self).config.extra_per_entry_config {
                    Some(cc) => Some(cc@),
                    None => None,
                },
            ),
            *final(self) == (Builder { inner: final(self).inner, ..*old(self) }),
    {
        let ghost base = self.inner@;
        self.inner.append("menuentry \"");
        self.inner.append(name.as_str());
        self.inner.append("\" ");
        self.inner.append(options.as_str());
        self.inner.append(" {\n");
        if self.config.save_default() {
            self.inner.append("  savedefault\n");
        }
        let bs = self.grub_boot.search.clone();
        self.inner.append(bs.as_str());
        push_char(&mut self.inner, '\n');
        match &self.grub_store {
            Some(store) => {
                let ss = store.search.clone();
                self.inner.append(ss.as_str());
                push_char(&mut self.inner, '\n');
            },
            None => {},
        }
        match &self.config.extra_per_entry_config {
            Some(conf) => {
                let cc = conf.clone();
                self.inner.append("  ");
                self.inner.append(cc.as_str());
                push_char(&mut self.inner, '\n');
            },
            None => {},
        }
        proof {
            assert(self.inner@ =~= base + entry_head_text(
                name@,
                options@,
                self.config.default_entry@ == "saved"@,
                self.grub_boot.search@,
                match self.grub_store {
                    Some(pp) => Some(pp.search@),
                    None => None,
                },
                match self.config.extra_per_entry_config {
                    Some(cc) => Some(cc@),
                    None => None,
                },
            ));
        }
    }

    /// Emits the boot lines and closing brace of a `menuentry` block.
    fn emit_entry_tail(
        &mut self,
        xen_line: &Option<(String, String)>,
        kernel_g: &String,
        initrd_g: &String,
        secrets_g: &String,
        f: &GenFacts,
    )
        ensures
            final(self).inner@ == old(self).inner@ + entry_tail_text(
                match xen_line {
                    Some(x) => Some((x.0@, x.1@)),
                    None => None,
                },
                kernel_g@,
                params_of(*f),
                initrd_g@,
                secrets_g@,
            ),
            *final(self) == (Builder { inner: final(self).inner, ..*old(self) }),
    {
        let ghost base = self.inner@;
        match xen_line {
            Some(x) => {
                self.inner.append("  multiboot ");
                self.inner.append(x.0.as_str());
                push_char(&mut self.inner, ' ');
                self.inner.append(x.1.as_str());
                push_char(&mut self.inner, '\n');
                self.inner.append("  module ");
                self.inner.append(kernel_g.as_str());
                push_char(&mut self.inner, ' ');
                self.append_params(f);
                push_char(&mut self.inner, '\n');
                self.inner.append("  module ");
                self.inner.append(initrd_g.as_str());
                push_char(&mut self.inner, ' ');
                self.inner.append(secrets_g.as_str());
                push_char(&mut self.inner, '\n');
            },
            None => {
                self.inner.append("  linux ");
                self.inner.append(kernel_g.as_str());
                push_char(&mut self.inner, ' ');
                self.append_params(f);
                push_char(&mut self.inner, '\n');
                self.inner.append("  initrd ");
                self.inner.append(initrd_g.as_str());
                push_char(&mut self.inner, ' ');
                self.inner.append(secrets_g.as_str());
                push_char(&mut self.inner, '\n');
            },
        }
        self.inner.append("}\n\n");
        proof {
            assert(self.inner@ =~= base + entry_tail_text(
                match xen_line {
                    Some(x) => Some((x.0@, x.1@)),
                    None => None,
                },
                kernel_g@,
                params_of(*f),
                initrd_g@,
                secrets_g@,
            ));
        }
    }

    /// Appends the kernel parameter line.
    fn append_params(&mut self, f: &GenFacts)
        ensures
            final(self).inner@ == old(self).inner@ + params_of(*f),
            *final(self) == (Builder { inner: final(self).inner, ..*old(self) }),
    {
        self.inner.append("init=");
        let init = f.init.clone();
        self.inner.append(init.as_str());
        push_char(&mut self.inner, ' ');
        let kp = f.kernel_params.clone();
        self.inner.append(kp.as_str());
    }
}

// ---------------------------------------------------------------------------
// Generations and specialisations
// ---------------------------------------------------------------------------

/// The version shown for a specialisation: the generation's version file,
/// else the version deduced from its kernel's module directory.
pub open spec fn spec_version_of(s: SpecFacts) -> Option<Seq<char>> {
    match s.version {
        Some(v) => Some(v@),
        None => match s.fallback_version {
            Some(v) => Some(v@),
            None => None,
        },
    }
}

/// A specialisation's entry title: its configuration name when present.
pub open spec fn spec_entry_title(s: SpecFacts, ver: Seq<char>) -> Seq<char> {
    match s.config_name {
        Some(c) => c@,
        None => "("@ + s.dir_name@ + " - "@ + s.date@ + " - "@ + ver + ")"@,
    }
}

/// Specialisations sorted by directory name.
pub open spec fn specs_sorted(ss: Seq<SpecFacts>) -> bool {
    forall|i: int, j: int|
        0 <= i < j < ss.len() ==> lex_le(
            (#[trigger] ss[i]).dir_name@,
            (#[trigger] ss[j]).dir_name@,
        )
}

/// What the specialisation entries of one generation append.
pub open spec fn specs_render(c: EntryCtx, name2: Seq<char>, ss: Seq<SpecFacts>) -> Option<
    Seq<char>,
>
    decreases ss.len(),
{
    if ss.len() == 0 {
        Some(Seq::<char>::empty())
    } else {
        match spec_version_of(ss[0]) {
            None => None,
            Some(ver) => match entry_render(
                c,
                name2 + " - "@ + spec_entry_title(ss[0], ver),
                Seq::<char>::empty(),
                true,
                ss[0].facts,
            ) {
                None => None,
                Some(t) => match specs_render(c, name2, ss.drop_first()) {
                    None => None,
                    Some(r) => Some(t + r),
                },
            },
        }
    }
}

/// What one generation appends: a wrapping sub-menu when a historical
/// generation has specialisations, the generation's own entry (titled
/// `- Default` when specialisations exist), then the specialisations.
pub open spec fn gen_render(
    c: EntryCtx,
    name: Seq<char>,
    suffix: Seq<char>,
    options: Seq<char>,
    current: bool,
    f: GenFacts,
    ss: Seq<SpecFacts>,
) -> Option<Seq<char>> {
    let has = ss.len() > 0;
    let name2 = name + (if has {
        " - Default"@
    } else {
        Seq::<char>::empty()
    }) + suffix;
    let head = if !current && has {
        "submenu \"> "@ + name + suffix + "\" --class submenu {\n"@
    } else {
        Seq::<char>::empty()
    };
    let close = if !current && has {
        "}\n"@
    } else {
        Seq::<char>::empty()
    };
    match entry_render(c, name2, options, current, f) {
        None => None,
        Some(t0) => match specs_render(c, name2, ss) {
            None => None,
            Some(t1) => Some(head + t0 + t1 + close),
        },
    }
}

impl Builder {
    /// Appends one generation with its specialisations (which must come
    /// sorted by name; `sort_spec_facts` produces that order).
    #[verifier::rlimit(100)]
    #[verifier::spinoff_prover]
    pub fn add_generation(
        &mut self,
        name: &String,
        name_suffix: &String,
        options: &String,
        current: bool,
        f: &GenFacts,
        specs: &Vec<SpecFacts>,
    ) -> (r: Result<(), String>)
        requires
            specs_sorted(specs@),
        ensures
            match r {
                Ok(_) => {
                    &&& gen_render(
                        ctx_of(*old(self)),
                        name@,
                        name_suffix@,
                        options@,
                        current,
                        *f,
                        specs@,
                    ) matches Some(t) && final(self).inner@ == old(self).inner@ + t
                    &&& views_of(old(self).copied@).is_prefix_of(views_of(final(self).copied@))
                    &&& action_views(old(self).actions@).is_prefix_of(
                        action_views(final(self).actions@),
                    )
                },
                Err(_) => gen_render(
                    ctx_of(*old(self)),
                    name@,
                    name_suffix@,
                    options@,
                    current,
                    *f,
                    specs@,
                ) is None,
            },
            *final(self) == (Builder {
                inner: final(self).inner,
                copied: final(self).copied,
                actions: final(self).actions,
                ..*old(self)
            }),
    {
        let ghost c = ctx_of(*self);
        let ghost base = self.inner@;
        let has: bool = specs.len() > 0;
        if !current && has {
            self.inner.append("submenu \"> ");
            self.inner.append(name.as_str());
            self.inner.append(name_suffix.as_str());
            self.inner.append("\" --class submenu {\n");
        }
        let mut name2 = name.clone();
        if has {
            name2.append(" - Default");
        }
        name2.append(name_suffix.as_str());
        let ghost head = if !current && has {
            "submenu \"> "@ + name@ + name_suffix@ + "\" --class submenu {\n"@
        } else {
            Seq::<char>::empty()
        };
        proof {
            assert(self.inner@ =~= base + head);
            assert(name2@ =~= name@ + (if has {
                " - Default"@
            } else {
                Seq::<char>::empty()
            }) + name_suffix@);
        }
        match self.add_entry(&name2, options, current, f) {
            Ok(_) => {},
            Err(e) => {
                proof {
                    assert(entry_render(c, name2@, options@, current, *f) is None);
                    assert(gen_render(
                        ctx_of(*old(self)),
                        name@,
                        name_suffix@,
                        options@,
                        current,
                        *f,
                        specs@,
                    ) is None);
                }
                return Err(e);
            },
        }
        let ghost base2 = self.inner@;
        let ghost mut done: Seq<char> = Seq::<char>::empty();
        let mut i: usize = 0;
        proof {
            assert(specs@.subrange(0, specs@.len() as int) =~= specs@);
        }
        while i < specs.len()
            invariant
                i <= specs@.len(),
                c == ctx_of(*self),
                c == ctx_of(*old(self)),
                name2@ == name@ + (if specs@.len() > 0 {
                    " - Default"@
                } else {
                    Seq::<char>::empty()
                }) + name_suffix@,
                entry_render(c, name2@, options@, current, *f) is Some,
                self.inner@ == base2 + done,
                specs_render(c, name2@, specs@) == (match specs_render(
                    c,
                    name2@,
                    specs@.subrange(i as int, specs@.len() as int),
                ) {
                    Some(r) => Some(done + r),
                    None => None::<Seq<char>>,
                }),
                views_of(old(self).copied@).is_prefix_of(views_of(self.copied@)),
                action_views(old(self).actions@).is_prefix_of(action_views(self.actions@)),
                *self == (Builder {
                    inner: self.inner,
                    copied: self.copied,
                    actions: self.actions,
                    ..*old(self)
                }),
            decreases specs@.len() - i,
        {
            let ghost tail = specs@.subrange(i as int, specs@.len() as int);
            proof {
                assert(tail[0] == specs@[i as int]);
                assert(tail.drop_first() =~= specs@.subrange(i + 1 as int, specs@.len() as int));
            }
            let sp = &specs[i];
            let version: String = match (&sp.version, &sp.fallback_version) {
                (Some(v), _) => v.clone(),
                (None, Some(v)) => v.clone(),
                (None, None) => {
                    proof {
                        assert(spec_version_of(specs@[i as int]) is None);
                        assert(specs_render(c, name2@, tail) is None);
                        assert(specs_render(c, name2@, specs@) is None);
                        assert(c == ctx_of(*old(self)));
                        let n2spec = name@ + (if specs@.len() > 0 {
                            " - Default"@
                        } else {
                            Seq::<char>::empty()
                        }) + name_suffix@;
                        assert(name2@ == n2spec);
                        assert(specs_render(c, n2spec, specs@) is None);
                        assert(gen_render(
                            ctx_of(*old(self)),
                            name@,
                            name_suffix@,
                            options@,
                            current,
                            *f,
                            specs@,
                        ) is None);
                    }
                    return Err(String::from_str("Could not deduce the current NixOS version"));
                },
            };
            let title: String = match &sp.config_name {
                Some(cn) => cn.clone(),
                None => {
                    let mut t = String::from_str("(");
                    t.append(sp.dir_name.as_str());
                    t.append(" - ");
                    t.append(sp.date.as_str());
                    t.append(" - ");
                    t.append(version.as_str());
                    t.append(")");
                    proof {
                        assert(t@ =~= spec_entry_title(specs@[i as int], version@));
                    }
                    t
                },
            };
            let mut ename = name2.clone();
            ename.append(" - ");
            ename.append(title.as_str());
            proof {
                assert(ename@ =~= name2@ + " - "@ + spec_entry_title(
                    specs@[i as int],
                    version@,
                ));
            }
            let empty_opts = String::new();
            let ghost ipre = self.inner@;
            match self.add_entry(&ename, &empty_opts, true, &sp.facts) {
                Ok(_) => {},
                Err(e) => {
                    proof {
                        assert(entry_render(
                            c,
                            name2@ + " - "@ + spec_entry_title(specs@[i as int], version@),
                            Seq::<char>::empty(),
                            true,
                            specs@[i as int].facts,
                        ) is None);
                        assert(specs_render(c, name2@, tail) is None);
                        assert(specs_render(c, name2@, specs@) is None);
                        assert(c == ctx_of(*old(self)));
                        let n2spec = name@ + (if specs@.len() > 0 {
                            " - Default"@
                        } else {
                            Seq::<char>::empty()
                        }) + name_suffix@;
                        assert(name2@ == n2spec);
                        assert(specs_render(c, n2spec, specs@) is None);
                        assert(gen_render(
                            ctx_of(*old(self)),
                            name@,
                            name_suffix@,
                            options@,
                            current,
                            *f,
                            specs@,
                        ) is None);
                    }
                    return Err(e);
                },
            }
            proof {
                let t = entry_render(c, ename@, Seq::<char>::empty(), true, specs@[i as int].facts)->Some_0;
                done = done + t;
                assert(self.inner@ =~= base2 + done);
            }
            i = i + 1;
        }
        proof {
            assert(specs@.subrange(specs@.len() as int, specs@.len() as int)
                =~= Seq::<SpecFacts>::empty());
            assert(specs_render(c, name2@, Seq::<SpecFacts>::empty()) == Some(
                Seq::<char>::empty(),
            ));
            assert(done + Seq::<char>::empty() =~= done);
        }
        if !current && has {
            self.inner.append("}\n");
        }
        proof {
            let t0 = entry_render(c, name2@, options@, current, *f)->Some_0;
            let close = if !current && has {
                "}\n"@
            } else {
                Seq::<char>::empty()
            };
            assert(self.inner@ =~= base + (head + t0 + done + close));
            assert(gen_render(c, name@, name_suffix@, options@, current, *f, specs@) == Some(
                head + t0 + done + close,
            ));
        }
        Ok(())
    }
}

// ---------------------------------------------------------------------------
// Profiles
// ---------------------------------------------------------------------------

pub open spec fn gen_entry_name(n: nat) -> Seq<char> {
    "@distroName@ - Configuration "@ + dec_digits(n)
}

pub open spec fn gen_entry_suffix(date: Seq<char>, version: Seq<char>) -> Seq<char> {
    " ("@ + date + " - "@ + version + ")"@
}

/// Each listed entry's specialisations come sorted.
pub open spec fn entries_sorted(es: Seq<GenEntry>) -> bool {
    forall|i: int| 0 <= i < es.len() ==> specs_sorted((#[trigger] es[i]).specialisations@)
}

/// What the generations of one profile append; an unreadable version file
/// skips the generation.
pub open spec fn profile_entries_render(c: EntryCtx, opts: Seq<char>, es: Seq<GenEntry>) -> Option<
    Seq<char>,
>
    decreases es.len(),
{
    if es.len() == 0 {
        Some(Seq::<char>::empty())
    } else {
        match es[0].version {
            None => profile_entries_render(c, opts, es.drop_first()),
            Some(v) => match gen_render(
                c,
                gen_entry_name(es[0].number as nat),
                gen_entry_suffix(es[0].date@, v@),
                opts,
                false,
                es[0].facts,
                es[0].specialisations@,
            ) {
                None => None,
                Some(t) => match profile_entries_render(c, opts, es.drop_first()) {
                    None => None,
                    Some(r) => Some(t + r),
                },
            },
        }
    }
}

/// What one profile sub-menu appends.
pub open spec fn profile_render(
    c: EntryCtx,
    desc: Seq<char>,
    opts: Seq<char>,
    es: Seq<GenEntry>,
) -> Option<Seq<char>> {
    match profile_entries_render(c, opts, es) {
        None => None,
        Some(t) => Some("submenu \""@ + desc + "\" --class submenu {\n"@ + t + "}\n"@),
    }
}

impl Builder {
    /// Appends one profile sub-menu listing the given generations, in the
    /// given order.
    #[verifier::rlimit(100)]
    #[verifier::spinoff_prover]
    pub fn add_profile(&mut self, description: &String, entries: &Vec<GenEntry>) -> (r: Result<
        (),
        String,
    >)
        requires
            entries_sorted(entries@),
        ensures
            match r {
                Ok(_) => {
                    &&& profile_render(
                        ctx_of(*old(self)),
                        description@,
                        old(self).config.sub_entry_options@,
                        entries@,
                    ) matches Some(t) && final(self).inner@ == old(self).inner@ + t
                    &&& views_of(old(self).copied@).is_prefix_of(views_of(final(self).copied@))
                    &&& action_views(old(self).actions@).is_prefix_of(
                        action_views(final(self).actions@),
                    )
                },
                Err(_) => profile_render(
                    ctx_of(*old(self)),
                    description@,
                    old(self).config.sub_entry_options@,
                    entries@,
                ) is None,
            },
            *final(self) == (Builder {
                inner: final(self).inner,
                copied: final(self).copied,
                actions: final(self).actions,
                ..*old(self)
            }),
    {
        let ghost c = ctx_of(*self);
        let ghost base = self.inner@;
        let ghost opts = self.config.sub_entry_options@;
        self.inner.append("submenu \"");
        self.inner.append(description.as_str());
        self.inner.append("\" --class submenu {\n");
        let ghost head = "submenu \""@ + description@ + "\" --class submenu {\n"@;
        proof {
            assert(self.inner@ =~= base + head);
        }
        let ghost base2 = self.inner@;
        let ghost mut done: Seq<char> = Seq::<char>::empty();
        let mut i: usize = 0;
        proof {
            assert(entries@.subrange(0, entries@.len() as int) =~= entries@);
        }
        while i < entries.len()
            invariant
                i <= entries@.len(),
                c == ctx_of(*self),
                c == ctx_of(*old(self)),
                opts == self.config.sub_entry_options@,
                entries_sorted(entries@),
                self.inner@ == base2 + done,
                profile_entries_render(c, opts, entries@) == (match profile_entries_render(
                    c,
                    opts,
                    entries@.subrange(i as int, entries@.len() as int),
                ) {
                    Some(r) => Some(done + r),
                    None => None::<Seq<char>>,
                }),
                views_of(old(self).copied@).is_prefix_of(views_of(self.copied@)),
                action_views(old(self).actions@).is_prefix_of(action_views(self.actions@)),
                *self == (Builder {
                    inner: self.inner,
                    copied: self.copied,
                    actions: self.actions,
                    ..*old(self)
                }),
            decreases entries@.len() - i,
        {
            let ghost tail = entries@.subrange(i as int, entries@.len() as int);
            proof {
                assert(tail[0] == entries@[i as int]);
                assert(tail.drop_first() =~= entries@.subrange(
                    i + 1 as int,
                    entries@.len() as int,
                ));
            }
            let e = &entries[i];
            match &e.version {
                None => {},
                Some(v) => {
                    let mut ename = String::from_str("@distroName@ - Configuration ");
                    let num = u64_to_string(e.number as u64);
                    ename.append(num.as_str());
                    let mut suffix = String::from_str(" (");
                    suffix.append(e.date.as_str());
                    suffix.append(" - ");
                    suffix.append(v.as_str());
                    suffix.append(")");
                    proof {
                        assert(ename@ =~= gen_entry_name(entries@[i as int].number as nat));
                        assert(suffix@ =~= gen_entry_suffix(entries@[i as int].date@, v@));
                    }
                    let sub_opts = self.config.sub_entry_options.clone();
                    match self.add_generation(
                        &ename,
                        &suffix,
                        &sub_opts,
                        false,
                        &e.facts,
                        &e.specialisations,
                    ) {
                        Ok(_) => {},
                        Err(err) => {
                            proof {
                                assert(profile_entries_render(c, opts, tail) is None);
                                assert(profile_entries_render(c, opts, entries@) is None);
                            }
                            return Err(err);
                        },
                    }
                    proof {
                        let t = gen_render(
                            c,
                            gen_entry_name(entries@[i as int].number as nat),
                            gen_entry_suffix(
                                entries@[i as int].date@,
                                entries@[i as int].version->Some_0@,
                            ),
                            opts,
                            false,
                            entries@[i as int].facts,
                            entries@[i as int].specialisations@,
                        )->Some_0;
                        done = done + t;
                        assert(self.inner@ =~= base2 + done);
                    }
                },
            }
            i = i + 1;
        }
        proof {
            assert(entries@.subrange(entries@.len() as int, entries@.len() as int)
                =~= Seq::<GenEntry>::empty());
            assert(done + Seq::<char>::empty() =~= done);
        }
        self.inner.append("}\n");
        proof {
            assert(self.inner@ =~= base + (head + done + "}\n"@));
            assert(profile_render(c, description@, opts, entries@) == Some(
                head + done + "}\n"@,
            ));
        }
        Ok(())
    }
}

/// A valid additional profile name: ASCII letters, digits and underscores.
pub open spec fn valid_profile_name(n: Seq<char>) -> bool {
    forall|i: int|
        0 <= i < n.len() ==> {
            let c = #[trigger] n[i];
            (('a' as u32) <= (c as u32) && (c as u32) <= ('z' as u32)) || (('A' as u32) <= (
            c as u32) && (c as u32) <= ('Z' as u32)) || (('0' as u32) <= (c as u32) && (c as u32)
                <= ('9' as u32)) || c == '_'
        }
}

/// Decides `valid_profile_name`.
pub fn is_valid_profile_name(n: &String) -> (r: bool)
    ensures
        r == valid_profile_name(n@),
{
    let cs = chars_of(n.as_str());
    let mut i: usize = 0;
    while i < cs.len()
        invariant
            i <= cs@.len(),
            cs@ == n@,
            forall|j: int|
                0 <= j < i ==> {
                    let c = #[trigger] n@[j];
                    (('a' as u32) <= (c as u32) && (c as u32) <= ('z' as u32)) || (('A' as u32)
                        <= (c as u32) && (c as u32) <= ('Z' as u32)) || (('0' as u32) <= (c as u32)
                        && (c as u32) <= ('9' as u32)) || c == '_'
                },
        decreases cs@.len() - i,
    {
        let c: char = cs[i];
        let v: u32 = c as u32;
        let ok: bool = (('a' as u32) <= v && v <= ('z' as u32)) || (('A' as u32) <= v && v <= (
        'Z' as u32)) || (('0' as u32) <= v && v <= ('9' as u32)) || c == '_';
        if !ok {
            return false;
        }
        i = i + 1;
    }
    true
}

/// What the additional profiles append: one sub-menu per profile with a
/// valid name, in list order.
pub open spec fn profiles_render(c: EntryCtx, opts: Seq<char>, ps: Seq<ProfileInput>) -> Option<
    Seq<char>,
>
    decreases ps.len(),
{
    if ps.len() == 0 {
        Some(Seq::<char>::empty())
    } else if !valid_profile_name(ps[0].name@) {
        profiles_render(c, opts, ps.drop_first())
    } else {
        match profile_render(
            c,
            "@distroName@ - Profile '"@ + ps[0].name@ + "'"@,
            opts,
            ps[0].entries@,
        ) {
            None => None,
            Some(t) => match profiles_render(c, opts, ps.drop_first()) {
                None => None,
                Some(r) => Some(t + r),
            },
        }
    }
}

pub open spec fn profiles_sorted(ps: Seq<ProfileInput>) -> bool {
    &&& forall|i: int, j: int|
        0 <= i < j < ps.len() ==> lex_le((#[trigger] ps[i]).name@, (#[trigger] ps[j]).name@)
    &&& forall|i: int| 0 <= i < ps.len() ==> entries_sorted((#[trigger] ps[i]).entries@)
}

impl Builder {
    /// Appends the "All configurations" sub-menu for the system profile,
    /// then one sub-menu per valid additional profile.
    #[verifier::rlimit(100)]
    #[verifier::spinoff_prover]
    pub fn append_profiles(
        &mut self,
        system_entries: &Vec<GenEntry>,
        extra_profiles: &Vec<ProfileInput>,
    ) -> (r: Result<(), String>)
        requires
            entries_sorted(system_entries@),
            profiles_sorted(extra_profiles@),
        ensures
            match r {
                Ok(_) => {
                    &&& profile_render(
                        ctx_of(*old(self)),
                        "@distroName@ - All configurations"@,
                        old(self).config.sub_entry_options@,
                        system_entries@,
                    ) matches Some(t0) && profiles_render(
                        ctx_of(*old(self)),
                        old(self).config.sub_entry_options@,
                        extra_profiles@,
                    ) matches Some(t1) && final(self).inner@ == old(self).inner@ + t0 + t1
                    &&& views_of(old(self).copied@).is_prefix_of(views_of(final(self).copied@))
                    &&& action_views(old(self).actions@).is_prefix_of(
                        action_views(final(self).actions@),
                    )
                },
                Err(_) => {
                    ||| profile_render(
                        ctx_of(*old(self)),
                        "@distroName@ - All configurations"@,
                        old(self).config.sub_entry_options@,
                        system_entries@,
                    ) is None
                    ||| profiles_render(
                        ctx_of(*old(self)),
                        old(self).config.sub_entry_options@,
                        extra_profiles@,
                    ) is None
                },
            },
            *final(self) == (Builder {
                inner: final(self).inner,
                copied: final(self).copied,
                actions: final(self).actions,
                ..*old(self)
            }),
    {
        let ghost c = ctx_of(*self);
        let ghost opts = self.config.sub_entry_options@;
        let ghost base = self.inner@;
        let desc = String::from_str("@distroName@ - All configurations");
        match self.add_profile(&desc, system_entries) {
            Ok(_) => {},
            Err(e) => {
                return Err(e);
            },
        }
        let ghost base2 = self.inner@;
        let ghost mut done: Seq<char> = Seq::<char>::empty();
        let mut i: usize = 0;
        proof {
            assert(extra_profiles@.subrange(0, extra_profiles@.len() as int)
                =~= extra_profiles@);
        }
        while i < extra_profiles.len()
            invariant
                i <= extra_profiles@.len(),
                c == ctx_of(*self),
                c == ctx_of(*old(self)),
                opts == self.config.sub_entry_options@,
                profiles_sorted(extra_profiles@),
                self.inner@ == base2 + done,
                profiles_render(c, opts, extra_profiles@) == (match profiles_render(
                    c,
                    opts,
                    extra_profiles@.subrange(i as int, extra_profiles@.len() as int),
                ) {
                    Some(r) => Some(done + r),
                    None => None::<Seq<char>>,
                }),
                views_of(old(self).copied@).is_prefix_of(views_of(self.copied@)),
                action_views(old(self).actions@).is_prefix_of(action_views(self.actions@)),
                *self == (Builder {
                    inner: self.inner,
                    copied: self.copied,
                    actions: self.actions,
                    ..*old(self)
                }),
            decreases extra_profiles@.len() - i,
        {
            let ghost tail = extra_profiles@.subrange(i as int, extra_profiles@.len() as int);
            proof {
                assert(tail[0] == extra_profiles@[i as int]);
                assert(tail.drop_first() =~= extra_profiles@.subrange(
                    i + 1 as int,
                    extra_profiles@.len() as int,
                ));
            }
            let p = &extra_profiles[i];
            if is_valid_profile_name(&p.name) {
                let mut pdesc = String::from_str("@distroName@ - Profile '");
                pdesc.append(p.name.as_str());
                pdesc.append("'");
                proof {
                    assert(pdesc@ =~= "@distroName@ - Profile '"@
                        + extra_profiles@[i as int].name@ + "'"@);
                }
                match self.add_profile(&pdesc, &p.entries) {
                    Ok(_) => {},
                    Err(e) => {
                        proof {
                            assert(profiles_render(c, opts, tail) is None);
                            assert(profiles_render(c, opts, extra_profiles@) is None);
                        }
                        return Err(e);
                    },
                }
                proof {
                    let t = profile_render(
                        c,
                        "@distroName@ - Profile '"@ + extra_profiles@[i as int].name@ + "'"@,
                        opts,
                        extra_profiles@[i as int].entries@,
                    )->Some_0;
                    done = done + t;
                    assert(self.inner@ =~= base2 + done);
                }
            }
            i = i + 1;
        }
        proof {
            assert(extra_profiles@.subrange(
                extra_profiles@.len() as int,
                extra_profiles@.len() as int,
            ) =~= Seq::<ProfileInput>::empty());
            assert(done + Seq::<char>::empty() =~= done);
            assert(self.inner@ =~= base + (profile_render(
                c,
                "@distroName@ - All configurations"@,
                opts,
                system_entries@,
            )->Some_0) + done);
        }
        Ok(())
    }

    /// Appends the extra entries (with `@bootRoot@` substituted) and the
    /// default configuration's entry, in the configured order.
    #[verifier::rlimit(100)]
    pub fn append_default_entries(&mut self, f: &GenFacts, specs: &Vec<SpecFacts>) -> (r: Result<
        (),
        String,
    >)
        requires
            specs_sorted(specs@),
        ensures
            match r {
                Ok(_) => {
                    &&& gen_render(
                        ctx_of(*old(self)),
                        "@distroName@"@,
                        Seq::<char>::empty(),
                        old(self).config.entry_options@,
                        true,
                        *f,
                        specs@,
                    ) matches Some(t) && {
                        let ex = replace_seq(
                            old(self).config.extra_entries@,
                            "@bootRoot@"@,
                            old(self).grub_boot.path@,
                        ) + seq!['\n'];
                        final(self).inner@ == old(self).inner@ + (if old(
                            self,
                        ).config.extra_entries_before_nixos {
                            ex + t
                        } else {
                            t + ex
                        })
                    }
                    &&& views_of(old(self).copied@).is_prefix_of(views_of(final(self).copied@))
                    &&& action_views(old(self).actions@).is_prefix_of(
                        action_views(final(self).actions@),
                    )
                },
                Err(_) => gen_render(
                    ctx_of(*old(self)),
                    "@distroName@"@,
                    Seq::<char>::empty(),
                    old(self).config.entry_options@,
                    true,
                    *f,
                    specs@,
                ) is None,
            },
            *final(self) == (Builder {
                inner: final(self).inner,
                copied: final(self).copied,
                actions: final(self).actions,
                ..*old(self)
            }),
    {
        proof {
            reveal_strlit("@bootRoot@");
        }
        let extra = replace_all(
            self.config.extra_entries.as_str(),
            "@bootRoot@",
            self.grub_boot.path.as_str(),
        );
        if self.config.extra_entries_before_nixos {
            self.inner.append(extra.as_str());
            push_char(&mut self.inner, '\n');
        }
        let name = String::from_str("@distroName@");
        let suffix = String::new();
        let opts = self.config.entry_options.clone();
        let fclone_name = name;
        match self.add_generation(&fclone_name, &suffix, &opts, true, f, specs) {
            Ok(_) => {},
            Err(e) => {
                return Err(e);
            },
        }
        if !self.config.extra_entries_before_nixos {
            self.inner.append(extra.as_str());
            push_char(&mut self.inner, '\n');
        }
        Ok(())
    }

    /// The entries section: the default configuration with the extra
    /// entries, then the profile sub-menus.
    #[verifier::rlimit(100)]
    pub fn entries(
        &mut self,
        f: &GenFacts,
        specs: &Vec<SpecFacts>,
        system_entries: &Vec<GenEntry>,
        extra_profiles: &Vec<ProfileInput>,
    ) -> (r: Result<(), String>)
        requires
            specs_sorted(specs@),
            entries_sorted(system_entries@),
            profiles_sorted(extra_profiles@),
        ensures
            r is Ok ==> {
                &&& gen_render(
                    ctx_of(*old(self)),
                    "@distroName@"@,
                    Seq::<char>::empty(),
                    old(self).config.entry_options@,
                    true,
                    *f,
                    specs@,
                ) matches Some(t) && profile_render(
                    ctx_of(*old(self)),
                    "@distroName@ - All configurations"@,
                    old(self).config.sub_entry_options@,
                    system_entries@,
                ) matches Some(t0) && profiles_render(
                    ctx_of(*old(self)),
                    old(self).config.sub_entry_options@,
                    extra_profiles@,
                ) matches Some(t1) && {
                    let ex = replace_seq(
                        old(self).config.extra_entries@,
                        "@bootRoot@"@,
                        old(self).grub_boot.path@,
                    ) + seq!['\n'];
                    final(self).inner@ == old(self).inner@ + (if old(
                        self,
                    ).config.extra_entries_before_nixos {
                        ex + t
                    } else {
                        t + ex
                    }) + t0 + t1
                }
                &&& views_of(old(self).copied@).is_prefix_of(views_of(final(self).copied@))
                &&& action_views(old(self).actions@).is_prefix_of(
                    action_views(final(self).actions@),
                )
            },
            *final(self) == (Builder {
                inner: final(self).inner,
                copied: final(self).copied,
                actions: final(self).actions,
                ..*old(self)
            }),
    {
        match self.append_default_entries(f, specs) {
            Ok(_) => {},
            Err(e) => {
                return Err(e);
            },
        }
        match self.append_profiles(system_entries, extra_profiles) {
            Ok(_) => {},
            Err(e) => {
                return Err(e);
            },
        }
        Ok(())
    }
}

// ---------------------------------------------------------------------------
// Profile link selection
// ---------------------------------------------------------------------------

/// Splitting at the last dash: the part before it, and the part after.
pub open spec fn rsplit_scan(s: Seq<char>, acc: Seq<char>) -> Option<(Seq<char>, Seq<char>)>
    decreases s.len(),
{
    if s.len() == 0 {
        None
    } else if s.last() == '-' {
        Some((s.drop_last(), acc))
    } else {
        rsplit_scan(s.drop_last(), seq![s.last()] + acc)
    }
}

pub open spec fn dash_rsplit(s: Seq<char>) -> Option<(Seq<char>, Seq<char>)> {
    rsplit_scan(s, Seq::<char>::empty())
}

/// The generation number a profile link file name encodes:
/// `<profile>-<N>-link` yields `N`; anything else does not match.
pub open spec fn link_gen(file: Seq<char>, profile: Seq<char>) -> Option<nat> {
    match dash_rsplit(file) {
        None => None,
        Some(p1) => if p1.1 != "link"@ {
            None
        } else {
            match dash_rsplit(p1.0) {
                None => None,
                Some(p2) => if p2.0 != profile {
                    None
                } else if is_uint_literal(p2.1) && uint_val(p2.1) <= u32::MAX {
                    Some(uint_val(p2.1))
                } else {
                    None
                },
            }
        },
    }
}

/// The matching links of a directory listing, in listing order.
pub open spec fn profile_matches(listing: Seq<Seq<char>>, profile: Seq<char>) -> Seq<
    (nat, Seq<char>),
>
    decreases listing.len(),
{
    if listing.len() == 0 {
        Seq::<(nat, Seq<char>)>::empty()
    } else {
        let rest = profile_matches(listing.drop_first(), profile);
        match link_gen(listing[0], profile) {
            Some(g) => seq![(g, listing[0])] + rest,
            None => rest,
        }
    }
}

pub open spec fn pair_views(s: Seq<(u32, String)>) -> Seq<(nat, Seq<char>)> {
    s.map_values(|p: (u32, String)| (p.0 as nat, p.1@))
}

/// Splits `cs` at its last dash.
fn dash_rsplit_exec(cs: &Vec<char>) -> (r: Option<(Vec<char>, Vec<char>)>)
    ensures
        match r {
            Some(p) => dash_rsplit(cs@) == Some((p.0@, p.1@)),
            None => dash_rsplit(cs@) is None,
        },
{
    let mut j: usize = cs.len();
    proof {
        assert(cs@.subrange(0, j as int) =~= cs@);
        assert(cs@.subrange(j as int, cs@.len() as int) =~= Seq::<char>::empty());
    }
    while j > 0
        invariant
            j <= cs@.len(),
            dash_rsplit(cs@) == rsplit_scan(
                cs@.subrange(0, j as int),
                cs@.subrange(j as int, cs@.len() as int),
            ),
        decreases j,
    {
        let ghost head = cs@.subrange(0, j as int);
        proof {
            assert(head.len() > 0);
            assert(head.last() == cs@[j - 1]);
            assert(head.drop_last() =~= cs@.subrange(0, j - 1 as int));
        }
        if cs[j - 1] == '-' {
            let a = copy_range(cs, 0, j - 1);
            let b = copy_range(cs, j, cs.len());
            return Some((a, b));
        }
        proof {
            assert(seq![head.last()] + cs@.subrange(j as int, cs@.len() as int) =~= cs@.subrange(
                j - 1 as int,
                cs@.len() as int,
            ));
        }
        j = j - 1;
    }
    proof {
        assert(cs@.subrange(0, 0) =~= Seq::<char>::empty());
    }
    None
}

/// The generation number of one file name, when it is a link of `profile`.
pub fn link_gen_of(file: &String, profile: &str) -> (r: Option<u32>)
    ensures
        match r {
            Some(g) => link_gen(file@, profile@) == Some(g as nat),
            None => link_gen(file@, profile@) is None,
        },
{
    let cs = chars_of(file.as_str());
    let p1 = match dash_rsplit_exec(&cs) {
        Some(p) => p,
        None => {
            return None;
        },
    };
    let tail = string_from_chars(&p1.1);
    if !str_eq(tail.as_str(), "link") {
        return None;
    }
    let p2 = match dash_rsplit_exec(&p1.0) {
        Some(p) => p,
        None => {
            return None;
        },
    };
    let head = string_from_chars(&p2.0);
    if !str_eq(head.as_str(), profile) {
        return None;
    }
    match parse_uint(&p2.1) {
        Some(v) => {
            if v <= u32::MAX as u64 {
                Some(v as u32)
            } else {
                None
            }
        },
        None => None,
    }
}

pub open spec fn nums_unique(ms: Seq<(nat, Seq<char>)>) -> bool {
    forall|i: int, j: int| 0 <= i < j < ms.len() ==> (#[trigger] ms[i]).0 != (#[trigger] ms[j]).0
}

/// The first position whose generation number is below the key;
/// everything before it is at least the key.
fn insertion_point_desc(sorted: &Vec<(u32, String)>, key: u32) -> (p: usize)
    ensures
        p <= sorted@.len(),
        forall|j: int| 0 <= j < p ==> (#[trigger] sorted@[j]).0 >= key,
        p < sorted@.len() ==> sorted@[p as int].0 < key,
{
    let mut p: usize = 0;
    while p < sorted.len()
        invariant
            p <= sorted@.len(),
            forall|j: int| 0 <= j < p ==> (#[trigger] sorted@[j]).0 >= key,
        decreases sorted@.len() - p,
    {
        if sorted[p].0 < key {
            return p;
        }
        p = p + 1;
    }
    p
}

/// Selects the generations shown for one profile: the numbered links of
/// the listing, ordered by generation number from newest to oldest,
/// truncated to the configuration limit.
#[verifier::rlimit(100)]
#[verifier::spinoff_prover]
pub fn select_generations(listing: &Vec<String>, profile: &str, limit: usize) -> (r: Vec<
    (u32, String),
>)
    ensures
        ({
            let ms = profile_matches(views_of(listing@), profile@);
            &&& r@.len() == (if limit <= ms.len() {
                limit as nat
            } else {
                ms.len()
            })
            &&& forall|i: int, j: int|
                0 <= i < j < r@.len() ==> (#[trigger] r@[i]).0 >= (#[trigger] r@[j]).0
            &&& exists|all: Seq<(u32, String)>|
                {
                    &&& pair_views(all).to_multiset() == ms.to_multiset()
                    &&& (forall|i: int, j: int|
                        0 <= i < j < all.len() ==> (#[trigger] all[i]).0 >= (
                        #[trigger] all[j]).0)
                    &&& r@ == all.subrange(
                        0,
                        if limit <= all.len() {
                            limit as int
                        } else {
                            all.len() as int
                        },
                    )
                }
        }),
{
    broadcast use vstd::seq_lib::group_to_multiset_ensures;
    broadcast use vstd::multiset::group_multiset_axioms;

    let ghost ls = views_of(listing@);
    let mut found: Vec<(u32, String)> = Vec::new();
    let mut i: usize = 0;
    proof {
        assert(ls.subrange(0, ls.len() as int) =~= ls);
        assert(pair_views(found@) =~= Seq::<(nat, Seq<char>)>::empty());
        assert(pair_views(found@) + profile_matches(ls, profile@) =~= profile_matches(
            ls,
            profile@,
        ));
    }
    while i < listing.len()
        invariant
            i <= ls.len(),
            ls == views_of(listing@),
            listing@.len() == ls.len(),
            profile_matches(ls, profile@) =~= pair_views(found@) + profile_matches(
                ls.subrange(i as int, ls.len() as int),
                profile@,
            ),
        decreases ls.len() - i,
    {
        let ghost tail = ls.subrange(i as int, ls.len() as int);
        proof {
            assert(tail[0] == ls[i as int]);
            assert(ls[i as int] == listing@[i as int]@);
            assert(tail.drop_first() =~= ls.subrange(i + 1 as int, ls.len() as int));
        }
        match link_gen_of(&listing[i], profile) {
            Some(g) => {
                let ghost fp = found@;
                found.push((g, listing[i].clone()));
                proof {
                    assert(pair_views(found@) =~= pair_views(fp).push(
                        (g as nat, listing@[i as int]@),
                    )) by {
                        assert forall|q: int|
                            0 <= q < found@.len() implies #[trigger] pair_views(found@)[q]
                            == pair_views(fp).push((g as nat, listing@[i as int]@))[q] by {
                            if q < fp.len() {
                                assert(found@[q] == fp[q]);
                            }
                        }
                    }
                    assert(profile_matches(tail, profile@) =~= seq![
                        ((g as nat), ls[i as int]),
                    ] + profile_matches(tail.drop_first(), profile@));
                    assert(profile_matches(ls, profile@) =~= pair_views(found@)
                        + profile_matches(
                        ls.subrange(i + 1 as int, ls.len() as int),
                        profile@,
                    ));
                }
            },
            None => {
                proof {
                    assert(profile_matches(tail, profile@) =~= profile_matches(
                        tail.drop_first(),
                        profile@,
                    ));
                }
            },
        }
        i = i + 1;
    }
    proof {
        assert(ls.subrange(ls.len() as int, ls.len() as int) =~= Seq::<Seq<char>>::empty());
        assert(profile_matches(Seq::<Seq<char>>::empty(), profile@) =~= Seq::<
            (nat, Seq<char>),
        >::empty());
        assert(pair_views(found@) =~= profile_matches(ls, profile@));
    }
    // sort by generation number, newest first
    let mut rest = found;
    let ghost input_ms = pair_views(rest@).to_multiset();
    let mut sorted: Vec<(u32, String)> = Vec::new();
    proof {
        assert(pair_views(sorted@) =~= Seq::<(nat, Seq<char>)>::empty());
        assert(pair_views(sorted@).to_multiset().add(pair_views(rest@).to_multiset())
            =~= input_ms);
    }
    while rest.len() > 0
        invariant
            forall|i: int, j: int|
                0 <= i < j < sorted@.len() ==> (#[trigger] sorted@[i]).0 >= (
                #[trigger] sorted@[j]).0,
            pair_views(sorted@).to_multiset().add(pair_views(rest@).to_multiset()) =~= input_ms,
        decreases rest@.len(),
    {
        let ghost rpre = pair_views(rest@);
        proof {
            assert(rpre.len() == rest@.len());
        }
        let x = rest.pop().unwrap();
        proof {
            assert(rpre.len() > 0);
            assert(pair_views(rest@) =~= rpre.drop_last());
            assert(rpre.drop_last() =~= rpre.remove(rpre.len() - 1));
            vstd::seq_lib::to_multiset_remove(rpre, rpre.len() - 1);
            assert(rpre[rpre.len() - 1] == (x.0 as nat, x.1@));
            assert(rpre.contains((x.0 as nat, x.1@))) by {
                assert(rpre[rpre.len() - 1] == (x.0 as nat, x.1@));
            }
            rpre.to_multiset_ensures();
            assert(rpre.to_multiset().count((x.0 as nat, x.1@)) > 0);
        }
        let p = insertion_point_desc(&sorted, x.0);
        let ghost opre = sorted@;
        let ghost pp = p as int;
        sorted.insert(p, x);
        proof {
            assert(sorted@ =~= opre.insert(pp, x));
            assert(pair_views(sorted@) =~= pair_views(opre).insert(pp, (x.0 as nat, x.1@))) by {
                assert forall|q: int|
                    0 <= q < sorted@.len() implies #[trigger] pair_views(sorted@)[q]
                    == pair_views(opre).insert(pp, (x.0 as nat, x.1@))[q] by {
                    if q < pp {
                        assert(sorted@[q] == opre[q]);
                    } else if q == pp {
                        assert(sorted@[q] == x);
                    } else {
                        assert(sorted@[q] == opre[q - 1]);
                    }
                }
            }
            vstd::seq_lib::to_multiset_insert(pair_views(opre), pp, (x.0 as nat, x.1@));
            assert(pair_views(sorted@).to_multiset() =~= pair_views(opre).to_multiset().insert(
                (x.0 as nat, x.1@),
            ));
            assert(pair_views(sorted@).to_multiset().add(pair_views(rest@).to_multiset())
                =~= input_ms);
            assert forall|i: int, j: int|
                0 <= i < j < sorted@.len() implies (#[trigger] sorted@[i]).0 >= (
                #[trigger] sorted@[j]).0 by {
                if j < pp {
                } else if i > pp {
                    assert(sorted@[i] == opre[i - 1] && sorted@[j] == opre[j - 1]);
                } else if i == pp {
                    assert(sorted@[i] == x && sorted@[j] == opre[j - 1]);
                    assert(pp < opre.len());
                    assert(opre[pp].0 < x.0);
                    if pp < j - 1 {
                        assert(opre[pp].0 >= opre[j - 1].0);
                    }
                } else if j == pp {
                    assert(sorted@[i] == opre[i] && sorted@[j] == x);
                } else {
                    assert(sorted@[i] == opre[i] && sorted@[j] == opre[j - 1]);
                }
            }
        }
    }
    proof {
        assert(pair_views(rest@) =~= Seq::<(nat, Seq<char>)>::empty());
        crate::strings::lemma_to_multiset_empty_pairs(pair_views(rest@));
        assert(pair_views(sorted@).to_multiset() =~= input_ms);
    }
    let ghost all = sorted@;
    let mut r = sorted;
    r.truncate(limit);
    proof {
        assert(r@ =~= all.subrange(
            0,
            if limit <= all.len() {
                limit as int
            } else {
                all.len() as int
            },
        ));
        assert(pair_views(all).to_multiset().len() == pair_views(all).len());
        assert(profile_matches(views_of(listing@), profile@).to_multiset().len()
            == profile_matches(views_of(listing@), profile@).len());
        assert(all.len() == profile_matches(views_of(listing@), profile@).len());
    }
    r
}

/// Generation ordering: with pairwise distinct generation numbers the
/// selected list is strictly decreasing.
pub proof fn lemma_generation_ordering(
    all: Seq<(u32, String)>,
    r: Seq<(u32, String)>,
    ms: Seq<(nat, Seq<char>)>,
    k: int,
)
    requires
        pair_views(all).to_multiset() == ms.to_multiset(),
        forall|i: int, j: int|
            0 <= i < j < all.len() ==> (#[trigger] all[i]).0 >= (#[trigger] all[j]).0,
        0 <= k <= all.len(),
        r == all.subrange(0, k),
        nums_unique(ms),
    ensures
        forall|i: int, j: int| 0 <= i < j < r.len() ==> (#[trigger] r[i]).0 > (#[trigger] r[j]).0,
{
    broadcast use vstd::seq_lib::group_to_multiset_ensures;
    broadcast use vstd::multiset::group_multiset_axioms;

    assert forall|i: int, j: int|
        0 <= i < j < r.len() implies (#[trigger] r[i]).0 > (#[trigger] r[j]).0 by {
        assert(r[i] == all[i] && r[j] == all[j]);
        if all[i].0 == all[j].0 {
            let av = pair_views(all);
            let xi = av[i];
            let xj = av[j];
            assert(xi == (all[i].0 as nat, all[i].1@));
            assert(xj == (all[j].0 as nat, all[j].1@));
            if xi == xj {
                // the same pair sits at two indices, so it is counted twice
                vstd::seq_lib::to_multiset_remove(av, i);
                let removed = av.remove(i);
                assert(removed[j - 1] == av[j]);
                assert(removed.contains(xi)) by {
                    assert(removed[j - 1] == xi);
                }
                removed.to_multiset_ensures();
                assert(removed.to_multiset().count(xi) > 0);
                assert(av.to_multiset().count(xi) >= 2);
                assert(ms.to_multiset().count(xi) >= 2);
                // so ms holds it at two distinct indices
                ms.to_multiset_ensures();
                assert(ms.contains(xi));
                let a = choose|a: int| 0 <= a < ms.len() && ms[a] == xi;
                vstd::seq_lib::to_multiset_remove(ms, a);
                assert(ms.remove(a).to_multiset().count(xi) >= 1);
                ms.remove(a).to_multiset_ensures();
                assert(ms.remove(a).contains(xi));
                let b0 = choose|b0: int| 0 <= b0 < ms.remove(a).len() && ms.remove(a)[b0] == xi;
                let b = if b0 < a {
                    b0
                } else {
                    b0 + 1
                };
                assert(ms[b] == xi);
                assert(a != b);
                assert(ms[a].0 == ms[b].0);
                assert(false);
            } else {
                av.to_multiset_ensures();
                assert(av.contains(xi)) by {
                    assert(av[i] == xi);
                }
                assert(av.contains(xj)) by {
                    assert(av[j] == xj);
                }
                ms.to_multiset_ensures();
                assert(ms.to_multiset().count(xi) > 0);
                assert(ms.to_multiset().count(xj) > 0);
                assert(ms.contains(xi) && ms.contains(xj));
                let a = choose|a: int| 0 <= a < ms.len() && ms[a] == xi;
                let b = choose|b: int| 0 <= b < ms.len() && ms[b] == xj;
                assert(a != b);
                assert(ms[a].0 == ms[b].0);
                assert(false);
            }
        }
    }
}

// ---------------------------------------------------------------------------
// Sorting the gathered inputs
// ---------------------------------------------------------------------------

/// The first position whose name is not `lex_le`-below-or-equal the key.
fn spec_insertion_point(sorted: &Vec<SpecFacts>, key: &Vec<char>) -> (p: usize)
    ensures
        p <= sorted@.len(),
        forall|j: int| 0 <= j < p ==> lex_le((#[trigger] sorted@[j]).dir_name@, key@),
        p < sorted@.len() ==> !lex_le(sorted@[p as int].dir_name@, key@),
{
    let mut p: usize = 0;
    while p < sorted.len()
        invariant
            p <= sorted@.len(),
            forall|j: int| 0 <= j < p ==> lex_le((#[trigger] sorted@[j]).dir_name@, key@),
        decreases sorted@.len() - p,
    {
        let oc = chars_of(sorted[p].dir_name.as_str());
        if !chars_le(&oc, key) {
            return p;
        }
        p = p + 1;
    }
    p
}

/// Sorts specialisations by directory name.
#[verifier::rlimit(60)]
pub fn sort_spec_facts(input: Vec<SpecFacts>) -> (r: Vec<SpecFacts>)
    ensures
        specs_sorted(r@),
        r@.to_multiset() == input@.to_multiset(),
{
    broadcast use vstd::seq_lib::group_to_multiset_ensures;
    broadcast use vstd::multiset::group_multiset_axioms;

    let mut rest = input;
    let ghost input_ms = rest@.to_multiset();
    let mut out: Vec<SpecFacts> = Vec::new();
    proof {
        assert forall|e: SpecFacts| out@.to_multiset().count(e) == 0 by {
            if out@.to_multiset().count(e) > 0 {
                assert(out@.contains(e));
            }
        }
        assert(out@.to_multiset().add(rest@.to_multiset()) =~= input_ms);
    }
    while rest.len() > 0
        invariant
            specs_sorted(out@),
            out@.to_multiset().add(rest@.to_multiset()) =~= input_ms,
        decreases rest@.len(),
    {
        let ghost rpre = rest@;
        let x = rest.pop().unwrap();
        proof {
            assert(rpre.len() > 0);
            assert(rest@ =~= rpre.drop_last());
            assert(rpre.drop_last() =~= rpre.remove(rpre.len() - 1));
            vstd::seq_lib::to_multiset_remove(rpre, rpre.len() - 1);
            assert(rpre[rpre.len() - 1] == x);
            assert(rpre.contains(x)) by {
                assert(rpre[rpre.len() - 1] == x);
            }
            rpre.to_multiset_ensures();
            assert(rpre.to_multiset().count(x) > 0);
        }
        let xc = chars_of(x.dir_name.as_str());
        let p = spec_insertion_point(&out, &xc);
        let ghost opre = out@;
        let ghost pp = p as int;
        proof {
            if pp < opre.len() {
                crate::strings::lemma_lex_le_total(opre[pp].dir_name@, x.dir_name@);
            }
        }
        out.insert(p, x);
        proof {
            assert(out@ =~= opre.insert(pp, x));
            vstd::seq_lib::to_multiset_insert(opre, pp, x);
            assert(out@.to_multiset().add(rest@.to_multiset()) =~= input_ms);
            assert forall|i: int, j: int|
                0 <= i < j < out@.len() implies lex_le(
                (#[trigger] out@[i]).dir_name@,
                (#[trigger] out@[j]).dir_name@,
            ) by {
                if j < pp {
                } else if i > pp {
                    assert(out@[i] == opre[i - 1] && out@[j] == opre[j - 1]);
                } else if i == pp {
                    assert(out@[i] == x && out@[j] == opre[j - 1]);
                    assert(lex_le(x.dir_name@, opre[pp].dir_name@));
                    if pp < j - 1 {
                        assert(lex_le(opre[pp].dir_name@, opre[j - 1].dir_name@));
                        crate::strings::lemma_lex_le_trans(
                            x.dir_name@,
                            opre[pp].dir_name@,
                            opre[j - 1].dir_name@,
                        );
                    }
                } else if j == pp {
                    assert(out@[i] == opre[i] && out@[j] == x);
                } else {
                    assert(out@[i] == opre[i] && out@[j] == opre[j - 1]);
                    assert(i < j - 1);
                    assert(lex_le(opre[i].dir_name@, opre[j - 1].dir_name@));
                }
            }
        }
    }
    proof {
        assert forall|e: SpecFacts| rest@.to_multiset().count(e) == 0 by {
            if rest@.to_multiset().count(e) > 0 {
                assert(rest@.contains(e));
            }
        }
        assert(out@.to_multiset() =~= input_ms);
    }
    out
}

/// The first position whose profile name is not `lex_le`-below-or-equal
/// the key.
fn profile_insertion_point(sorted: &Vec<ProfileInput>, key: &Vec<char>) -> (p: usize)
    ensures
        p <= sorted@.len(),
        forall|j: int| 0 <= j < p ==> lex_le((#[trigger] sorted@[j]).name@, key@),
        p < sorted@.len() ==> !lex_le(sorted@[p as int].name@, key@),
{
    let mut p: usize = 0;
    while p < sorted.len()
        invariant
            p <= sorted@.len(),
            forall|j: int| 0 <= j < p ==> lex_le((#[trigger] sorted@[j]).name@, key@),
        decreases sorted@.len() - p,
    {
        let oc = chars_of(sorted[p].name.as_str());
        if !chars_le(&oc, key) {
            return p;
        }
        p = p + 1;
    }
    p
}

/// Sorts additional profiles by name.
#[verifier::rlimit(60)]
pub fn sort_profiles(input: Vec<ProfileInput>) -> (r: Vec<ProfileInput>)
    ensures
        forall|i: int, j: int|
            0 <= i < j < r@.len() ==> lex_le((#[trigger] r@[i]).name@, (#[trigger] r@[j]).name@),
        r@.to_multiset() == input@.to_multiset(),
{
    broadcast use vstd::seq_lib::group_to_multiset_ensures;
    broadcast use vstd::multiset::group_multiset_axioms;

    let mut rest = input;
    let ghost input_ms = rest@.to_multiset();
    let mut out: Vec<ProfileInput> = Vec::new();
    proof {
        assert forall|e: ProfileInput| out@.to_multiset().count(e) == 0 by {
            if out@.to_multiset().count(e) > 0 {
                assert(out@.contains(e));
            }
        }
        assert(out@.to_multiset().add(rest@.to_multiset()) =~= input_ms);
    }
    while rest.len() > 0
        invariant
            forall|i: int, j: int|
                0 <= i < j < out@.len() ==> lex_le(
                    (#[trigger] out@[i]).name@,
                    (#[trigger] out@[j]).name@,
                ),
            out@.to_multiset().add(rest@.to_multiset()) =~= input_ms,
        decreases rest@.len(),
    {
        let ghost rpre = rest@;
        let x = rest.pop().unwrap();
        proof {
            assert(rpre.len() > 0);
            assert(rest@ =~= rpre.drop_last());
            assert(rpre.drop_last() =~= rpre.remove(rpre.len() - 1));
            vstd::seq_lib::to_multiset_remove(rpre, rpre.len() - 1);
            assert(rpre[rpre.len() - 1] == x);
            assert(rpre.contains(x)) by {
                assert(rpre[rpre.len() - 1] == x);
            }
            rpre.to_multiset_ensures();
            assert(rpre.to_multiset().count(x) > 0);
        }
        let xc = chars_of(x.name.as_str());
        let p = profile_insertion_point(&out, &xc);
        let ghost opre = out@;
        let ghost pp = p as int;
        proof {
            if pp < opre.len() {
                crate::strings::lemma_lex_le_total(opre[pp].name@, x.name@);
            }
        }
        out.insert(p, x);
        proof {
            assert(out@ =~= opre.insert(pp, x));
            vstd::seq_lib::to_multiset_insert(opre, pp, x);
            assert(out@.to_multiset().add(rest@.to_multiset()) =~= input_ms);
            assert forall|i: int, j: int|
                0 <= i < j < out@.len() implies lex_le(
                (#[trigger] out@[i]).name@,
                (#[trigger] out@[j]).name@,
            ) by {
                if j < pp {
                } else if i > pp {
                    assert(out@[i] == opre[i - 1] && out@[j] == opre[j - 1]);
                } else if i == pp {
                    assert(out@[i] == x && out@[j] == opre[j - 1]);
                    assert(lex_le(x.name@, opre[pp].name@));
                    if pp < j - 1 {
                        assert(lex_le(opre[pp].name@, opre[j - 1].name@));
                        crate::strings::lemma_lex_le_trans(
                            x.name@,
                            opre[pp].name@,
                            opre[j - 1].name@,
                        );
                    }
                } else if j == pp {
                    assert(out@[i] == opre[i] && out@[j] == x);
                } else {
                    assert(out@[i] == opre[i] && out@[j] == opre[j - 1]);
                    assert(i < j - 1);
                    assert(lex_le(opre[i].name@, opre[j - 1].name@));
                }
            }
        }
    }
    proof {
        assert forall|e: ProfileInput| rest@.to_multiset().count(e) == 0 by {
            if rest@.to_multiset().count(e) > 0 {
                assert(rest@.contains(e));
            }
        }
        assert(out@.to_multiset() =~= input_ms);
    }
    out
}

/// Determinism: every part of the menu is a function of the configuration
/// and the gathered facts alone, so two runs over equal inputs produce
/// byte-for-byte equal menu text.
pub proof fn lemma_menu_deterministic(
    b1: Builder,
    b2: Builder,
    f: GenFacts,
    ss: Seq<SpecFacts>,
    es: Seq<GenEntry>,
    ps: Seq<ProfileInput>,
    fs: Seq<Seq<char>>,
)
    requires
        b1.config == b2.config,
        b1.grub_boot == b2.grub_boot,
        b1.grub_store == b2.grub_store,
        b1.dry_run == b2.dry_run,
    ensures
        crate::builder::header_text(b1.config, b1.grub_boot.search@) == crate::builder::header_text(
            b2.config,
            b2.grub_boot.search@,
        ),
        crate::builder::users_block(b1.config.users.0@) == crate::builder::users_block(
            b2.config.users.0@,
        ),
        crate::builder::appearance::appearance_text(b1.config, b1.grub_boot.path@, fs)
            == crate::builder::appearance::appearance_text(b2.config, b2.grub_boot.path@, fs),
        gen_render(
            ctx_of(b1),
            "@distroName@"@,
            Seq::<char>::empty(),
            b1.config.entry_options@,
            true,
            f,
            ss,
        ) == gen_render(
            ctx_of(b2),
            "@distroName@"@,
            Seq::<char>::empty(),
            b2.config.entry_options@,
            true,
            f,
            ss,
        ),
        profile_render(
            ctx_of(b1),
            "@distroName@ - All configurations"@,
            b1.config.sub_entry_options@,
            es,
        ) == profile_render(
            ctx_of(b2),
            "@distroName@ - All configurations"@,
            b2.config.sub_entry_options@,
            es,
        ),
        profiles_render(ctx_of(b1), b1.config.sub_entry_options@, ps) == profiles_render(
            ctx_of(b2),
            b2.config.sub_entry_options@,
            ps,
        ),
{
    assert(ctx_of(b1) == ctx_of(b2));
}

} // verus!
