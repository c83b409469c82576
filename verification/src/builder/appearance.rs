//! The appearance part of the menu: console font, splash image, theme, and
//! the verbatim extra configuration.

use vstd::prelude::*;
use vstd::string::StrSliceExecFns;
use vstd::string::StringExecFns;
use crate::builder::{Builder, Action, action_is_copy};
use crate::strings::{str_eq, chars_of, string_from_chars, copy_range, push_char, sorted_lex, views_of};

verus! {

/// The extension scan: characters after the final `.` of the final path
/// component, `None` when there is no such dot or it opens the component.
pub open spec fn ext_scan(p: Seq<char>, acc: Seq<char>) -> Option<Seq<char>>
    decreases p.len(),
{
    if p.len() == 0 {
        None
    } else if p.last() == '/' {
        None
    } else if p.last() == '.' {
        if p.drop_last().len() == 0 || p.drop_last().last() == '/' {
            None
        } else {
            Some(acc)
        }
    } else {
        ext_scan(p.drop_last(), seq![p.last()] + acc)
    }
}

/// The extension of a path, as `Path::extension` sees it.
pub open spec fn ext_of(p: Seq<char>) -> Option<Seq<char>> {
    ext_scan(p, Seq::<char>::empty())
}

/// Computes the extension of `p`.
pub fn extension_of(p: &Vec<char>) -> (r: Option<Vec<char>>)
    ensures
        match r {
            Some(e) => ext_of(p@) == Some(e@),
            None => ext_of(p@) is None,
        },
{
    let mut j: usize = p.len();
    proof {
        assert(p@.subrange(0, j as int) =~= p@);
        assert(p@.subrange(j as int, p@.len() as int) =~= Seq::<char>::empty());
    }
    while j > 0
        invariant
            j <= p@.len(),
            ext_of(p@) == ext_scan(
                p@.subrange(0, j as int),
                p@.subrange(j as int, p@.len() as int),
            ),
        decreases j,
    {
        let ghost head = p@.subrange(0, j as int);
        proof {
            assert(head.len() > 0);
            assert(head.last() == p@[j - 1]);
            assert(head.drop_last() =~= p@.subrange(0, j - 1 as int));
        }
        let c: char = p[j - 1];
        if c == '/' {
            return None;
        }
        if c == '.' {
            if j == 1 || p[j - 2] == '/' {
                proof {
                    if j > 1 {
                        assert(head.drop_last().last() == p@[j - 2]);
                    }
                }
                return None;
            }
            proof {
                assert(head.drop_last().last() == p@[j - 2]);
            }
            return Some(copy_range(p, j, p.len()));
        }
        proof {
            assert(seq![head.last()] + p@.subrange(j as int, p@.len() as int) =~= p@.subrange(
                j - 1 as int,
                p@.len() as int,
            ));
        }
        j = j - 1;
    }
    proof {
        assert(p@.subrange(0, 0) =~= Seq::<char>::empty());
    }
    None
}

/// The module name a splash extension selects: `jpg` loads `jpeg`.
pub open spec fn splash_ext(e: Seq<char>) -> Seq<char> {
    if e == "jpg"@ {
        "jpeg"@
    } else {
        e
    }
}

/// The font block: load the converted font and switch to the graphical
/// terminal with the per-platform graphics mode and payload.
pub open spec fn font_block(
    gb: Seq<char>,
    gme: Seq<char>,
    gpe: Seq<char>,
    gmb: Seq<char>,
    gpb: Seq<char>,
) -> Seq<char> {
    "insmod font\nif loadfont "@ + gb
        + "/converted-font.pf2; then\n  insmod gfxterm\n  if [ \"${grub_platform}\" = \"efi\" ]; then\n    set gfxmode="@
        + gme + seq!['\n'] + "    set gfxpayload="@ + gpe + seq!['\n'] + "  else\n    set gfxmode="@
        + gmb + seq!['\n'] + "    set gfxpayload="@ + gpb
        + seq!['\n'] + "  fi\n  terminal_output gfxterm\nfi\n\n"@
}

/// The splash block: the optional background colour, the image module, and
/// the guarded `background_image` with its colour fallbacks.
pub open spec fn splash_block(
    color: Option<Seq<char>>,
    mode: Seq<char>,
    ext: Seq<char>,
    gb: Seq<char>,
) -> Seq<char> {
    (match color {
        Some(c) => "background_color '"@ + c + "'\n"@,
        None => Seq::<char>::empty(),
    }) + "insmod "@ + ext + "\nif background_image --mode '"@ + mode + "' "@ + gb
        + "/background."@ + ext
        + "; then\n  set color_normal=white/black\n  set color_highlight=black/white\nelse\n  set menu_color_normal=cyan/blue\n  set menu_color_highlight=white/blue\nfi\n\n"@
}

pub open spec fn has_png(fs: Seq<Seq<char>>) -> bool {
    exists|i: int| 0 <= i < fs.len() && ext_of(#[trigger] fs[i]) == Some("png"@)
}

pub open spec fn has_jpeg(fs: Seq<Seq<char>>) -> bool {
    exists|i: int|
        0 <= i < fs.len() && (ext_of(#[trigger] fs[i]) == Some("jpeg"@) || ext_of(fs[i]) == Some(
            "jpg"@,
        ))
}

/// The `loadfont` lines for the theme's `.pf2` files, in list order.
pub open spec fn font_lines(gb: Seq<char>, fs: Seq<Seq<char>>) -> Seq<char>
    decreases fs.len(),
{
    if fs.len() == 0 {
        Seq::<char>::empty()
    } else {
        (if ext_of(fs[0]) == Some("pf2"@) {
            "loadfont "@ + gb + "/theme/"@ + fs[0] + seq!['\n']
        } else {
            Seq::<char>::empty()
        }) + font_lines(gb, fs.drop_first())
    }
}

/// The theme block: the image modules the theme needs, the theme setting,
/// and its fonts.
pub open spec fn theme_text(gb: Seq<char>, fs: Seq<Seq<char>>) -> Seq<char> {
    (if has_png(fs) {
        "insmod png\n"@
    } else {
        Seq::<char>::empty()
    }) + (if has_jpeg(fs) {
        "insmod jpeg\n"@
    } else {
        Seq::<char>::empty()
    }) + "# Sets theme.\nset theme="@ + gb
        + "/theme/theme.txt\nexport theme\n# Load theme fonts, if any\n\n"@ + font_lines(gb, fs)
}

pub open spec fn action_is_theme_copy(a: Action, src: Seq<char>, dst: Seq<char>) -> bool {
    a matches Action::CopyThemeFile { src: s, dst: d } && s@ == src && d@ == dst
}

/// What the splash part contributes to the menu, when it decodes.
pub open spec fn splash_part(c: crate::config::Config, gb: Seq<char>) -> Seq<char> {
    match c.splash_image {
        None => Seq::<char>::empty(),
        Some(img) => {
            let mode = match c.splash_mode {
                Some(m) => m@,
                None => Seq::<char>::empty(),
            };
            let color = match c.background_color {
                Some(col) => Some(col@),
                None => None,
            };
            match ext_of(img@) {
                Some(e) => splash_block(color, mode, splash_ext(e), gb),
                None => Seq::<char>::empty(),
            }
        },
    }
}

/// What the theme part contributes to the menu.
pub open spec fn theme_part(c: crate::config::Config, gb: Seq<char>, fs: Seq<Seq<char>>) -> Seq<
    char,
> {
    match c.theme {
        None => Seq::<char>::empty(),
        Some(_) => theme_text(gb, fs),
    }
}

/// The whole appearance contribution: font, splash, theme, then the
/// verbatim extra configuration.
pub open spec fn appearance_text(c: crate::config::Config, gb: Seq<char>, fs: Seq<Seq<char>>) -> Seq<
    char,
> {
    font_block(gb, c.gfx_mode_efi@, c.gfx_payload_efi@, c.gfx_mode_bios@, c.gfx_payload_bios@)
        + splash_part(c, gb) + theme_part(c, gb, fs) + c.extra_config@ + "\n\n"@
}

impl Builder {
    /// Plans the font copy and appends the font block.
    pub fn append_font(&mut self)
        ensures
            final(self).inner@ == old(self).inner@ + font_block(
                old(self).grub_boot.path@,
                old(self).config.gfx_mode_efi@,
                old(self).config.gfx_payload_efi@,
                old(self).config.gfx_mode_bios@,
                old(self).config.gfx_payload_bios@,
            ),
            final(self).actions@.len() == old(self).actions@.len() + 1,
            final(self).actions@.drop_last() =~= old(self).actions@,
            action_is_copy(
                final(self).actions@.last(),
                old(self).config.font@,
                old(self).config.boot_path@ + "/converted-font.pf2"@,
            ),
            *final(self) == (Builder {
                inner: final(self).inner,
                actions: final(self).actions,
                ..*old(self)
            }),
    {
        let ghost base = self.inner@;
        let mut dst = self.config.boot_path.clone();
        dst.append("/converted-font.pf2");
        self.actions.push(Action::Copy { src: self.config.font.clone(), dst });
        self.inner.append("insmod font\nif loadfont ");
        let gb = self.grub_boot.path.clone();
        self.inner.append(gb.as_str());
        self.inner.append(
            "/converted-font.pf2; then\n  insmod gfxterm\n  if [ \"${grub_platform}\" = \"efi\" ]; then\n    set gfxmode=",
        );
        let gme = self.config.gfx_mode_efi.clone();
        self.inner.append(gme.as_str());
        push_char(&mut self.inner, '\n');
        self.inner.append("    set gfxpayload=");
        let gpe = self.config.gfx_payload_efi.clone();
        self.inner.append(gpe.as_str());
        push_char(&mut self.inner, '\n');
        self.inner.append("  else\n    set gfxmode=");
        let gmb = self.config.gfx_mode_bios.clone();
        self.inner.append(gmb.as_str());
        push_char(&mut self.inner, '\n');
        self.inner.append("    set gfxpayload=");
        let gpb = self.config.gfx_payload_bios.clone();
        self.inner.append(gpb.as_str());
        push_char(&mut self.inner, '\n');
        self.inner.append("  fi\n  terminal_output gfxterm\nfi\n\n");
        proof {
            assert(self.inner@ =~= base + font_block(
                self.grub_boot.path@,
                self.config.gfx_mode_efi@,
                self.config.gfx_payload_efi@,
                self.config.gfx_mode_bios@,
                self.config.gfx_payload_bios@,
            ));
        }
    }

    /// Plans the splash image copy and appends the splash block; an image
    /// without an extension is rejected.
    pub fn append_splash(&mut self) -> (r: Result<(), String>)
        ensures
            match r {
                Ok(_) => match old(self).config.splash_image {
                    None => *final(self) == *old(self),
                    Some(img) => {
                        &&& ext_of(img@) is Some
                        &&& final(self).inner@ == old(self).inner@ + splash_part(
                            old(self).config,
                            old(self).grub_boot.path@,
                        )
                        &&& final(self).actions@.len() == old(self).actions@.len() + 1
                        &&& final(self).actions@.drop_last() =~= old(self).actions@
                        &&& action_is_copy(
                            final(self).actions@.last(),
                            img@,
                            old(self).config.boot_path@ + "/background."@ + splash_ext(
                                match ext_of(img@) {
                                    Some(e) => e,
                                    None => Seq::<char>::empty(),
                                },
                            ),
                        )
                        &&& *final(self) == (Builder {
                            inner: final(self).inner,
                            actions: final(self).actions,
                            ..*old(self)
                        })
                    },
                },
                Err(m) => {
                    &&& old(self).config.splash_image matches Some(img)
                    &&& ext_of(img@) is None
                    &&& m@ == (
                    "Splash image has no extension - could not decide which module to load!"@)
                    &&& *final(self) == *old(self)
                },
            },
    {
        let img: String = match &self.config.splash_image {
            None => {
                return Ok(());
            },
            Some(img) => img.clone(),
        };
        let ic = chars_of(img.as_str());
        let ext_raw: Vec<char> = match extension_of(&ic) {
            Some(e) => e,
            None => {
                return Err(
                    String::from_str(
                        "Splash image has no extension - could not decide which module to load!",
                    ),
                );
            },
        };
        let ext_s = string_from_chars(&ext_raw);
        let ext: String = if str_eq(ext_s.as_str(), "jpg") {
            String::from_str("jpeg")
        } else {
            ext_s
        };
        let ghost base = self.inner@;
        match &self.config.background_color {
            Some(c) => {
                let cc = c.clone();
                self.inner.append("background_color '");
                self.inner.append(cc.as_str());
                self.inner.append("'\n");
            },
            None => {},
        }
        let mut dst = self.config.boot_path.clone();
        dst.append("/background.");
        dst.append(ext.as_str());
        self.actions.push(Action::Copy { src: img.clone(), dst });
        self.inner.append("insmod ");
        self.inner.append(ext.as_str());
        self.inner.append("\nif background_image --mode '");
        match &self.config.splash_mode {
            Some(m) => {
                let mc = m.clone();
                self.inner.append(mc.as_str());
            },
            None => {},
        }
        self.inner.append("' ");
        let gb = self.grub_boot.path.clone();
        self.inner.append(gb.as_str());
        self.inner.append("/background.");
        self.inner.append(ext.as_str());
        self.inner.append(
            "; then\n  set color_normal=white/black\n  set color_highlight=black/white\nelse\n  set menu_color_normal=cyan/blue\n  set menu_color_highlight=white/blue\nfi\n\n",
        );
        proof {
            assert(self.inner@ =~= base + splash_part(self.config, self.grub_boot.path@));
        }
        Ok(())
    }

    /// Plans clearing and re-copying the theme tree and appends the theme
    /// block.  `theme_files` are the relative paths of the theme's files,
    /// sorted.
    pub fn append_theme(&mut self, theme_files: &Vec<String>)
        requires
            sorted_lex(views_of(theme_files@)),
        ensures
            final(self).inner@ == old(self).inner@ + theme_part(
                old(self).config,
                old(self).grub_boot.path@,
                views_of(theme_files@),
            ),
            final(self).actions@.len() == old(self).actions@.len() + 1 + (
            match old(self).config.theme {
                Some(_) => theme_files@.len(),
                None => 0,
            }),
            final(self).actions@.subrange(0, old(self).actions@.len() as int) =~= old(
                self,
            ).actions@,
            final(self).actions@[old(self).actions@.len() as int]
                matches Action::ClearThemeDir { dst }
                && dst@ == old(self).config.boot_path@ + "/theme"@,
            old(self).config.theme matches Some(t) ==> forall|k: int|
                0 <= k < theme_files@.len() ==> action_is_theme_copy(
                    #[trigger] final(self).actions@[old(self).actions@.len() + 1 + k],
                    t@ + seq!['/'] + theme_files@[k]@,
                    old(self).config.boot_path@ + "/theme/"@ + theme_files@[k]@,
                ),
            *final(self) == (Builder {
                inner: final(self).inner,
                actions: final(self).actions,
                ..*old(self)
            }),
    {
        proof {
            reveal_strlit("png");
            reveal_strlit("jpeg");
            reveal_strlit("jpg");
        }
        let ghost abase = self.actions@;
        let mut clear_dst = self.config.boot_path.clone();
        clear_dst.append("/theme");
        proof {
            assert(clear_dst@ =~= self.config.boot_path@ + "/theme"@);
        }
        self.actions.push(Action::ClearThemeDir { dst: clear_dst });
        proof {
            assert(self.actions@.subrange(0, abase.len() as int) =~= abase);
        }
        let theme: String = match &self.config.theme {
            None => {
                proof {
                    assert(self.inner@ =~= self.inner@ + theme_part(
                        self.config,
                        self.grub_boot.path@,
                        views_of(theme_files@),
                    ));
                }
                return ;
            },
            Some(t) => t.clone(),
        };
        let ghost fs = views_of(theme_files@);
        // plan the copies
        let mut k: usize = 0;
        while k < theme_files.len()
            invariant
                k <= theme_files@.len(),
                fs == views_of(theme_files@),
                self.config.theme matches Some(t) && t@ == theme@,
                self.actions@.len() == abase.len() + 1 + k,
                self.actions@.subrange(0, abase.len() as int) =~= abase,
                self.actions@[abase.len() as int] matches Action::ClearThemeDir { dst } && dst@
                    == self.config.boot_path@ + "/theme"@,
                forall|q: int|
                    0 <= q < k ==> action_is_theme_copy(
                        #[trigger] self.actions@[abase.len() + 1 + q],
                        theme@ + seq!['/'] + fs[q],
                        self.config.boot_path@ + "/theme/"@ + fs[q],
                    ),
                *self == (Builder { actions: self.actions, ..*old(self) }),
            decreases theme_files@.len() - k,
        {
            let mut src = theme.clone();
            push_char(&mut src, '/');
            src.append(theme_files[k].as_str());
            let mut dst = self.config.boot_path.clone();
            dst.append("/theme/");
            dst.append(theme_files[k].as_str());
            proof {
                assert(fs[k as int] == theme_files@[k as int]@);
                assert(src@ =~= theme@ + seq!['/'] + fs[k as int]);
                assert(dst@ =~= self.config.boot_path@ + "/theme/"@ + fs[k as int]);
            }
            let ghost apre = self.actions@;
            self.actions.push(Action::CopyThemeFile { src, dst });
            proof {
                assert(self.actions@.subrange(0, abase.len() as int) =~= abase);
                assert forall|q: int| 0 <= q < k + 1 implies action_is_theme_copy(
                    #[trigger] self.actions@[abase.len() + 1 + q],
                    theme@ + seq!['/'] + fs[q],
                    self.config.boot_path@ + "/theme/"@ + fs[q],
                ) by {
                    if q < k {
                        assert(self.actions@[abase.len() + 1 + q] == apre[abase.len() + 1 + q]);
                    } else {
                        assert(self.actions@[abase.len() + 1 + q] == self.actions@.last());
                    }
                }
            }
            k = k + 1;
        }
        let ghost afinal = self.actions@;
        // the modules the theme needs
        let mut png: bool = false;
        let mut jpeg: bool = false;
        let mut i: usize = 0;
        while i < theme_files.len()
            invariant
                i <= theme_files@.len(),
                fs == views_of(theme_files@),
                png == exists|q: int| 0 <= q < i && ext_of(#[trigger] fs[q]) == Some("png"@),
                jpeg == exists|q: int|
                    0 <= q < i && (ext_of(#[trigger] fs[q]) == Some("jpeg"@) || ext_of(fs[q])
                        == Some("jpg"@)),
            decreases theme_files@.len() - i,
        {
            let cs = chars_of(theme_files[i].as_str());
            proof {
                assert(fs[i as int] == theme_files@[i as int]@);
            }
            let ext = extension_of(&cs);
            let is_png: bool = match &ext {
                Some(e) => {
                    let es = string_from_chars(e);
                    str_eq(es.as_str(), "png")
                },
                None => false,
            };
            let is_jp: bool = match &ext {
                Some(e) => {
                    let es = string_from_chars(e);
                    str_eq(es.as_str(), "jpeg") || str_eq(es.as_str(), "jpg")
                },
                None => false,
            };
            proof {
                assert(is_png == (ext_of(fs[i as int]) == Some("png"@)));
                assert(is_jp == (ext_of(fs[i as int]) == Some("jpeg"@) || ext_of(fs[i as int])
                    == Some("jpg"@)));
            }
            let ghost png0 = png;
            let ghost jp0 = jpeg;
            if is_png {
                png = true;
            }
            if is_jp {
                jpeg = true;
            }
            proof {
                assert(png == exists|q: int|
                    0 <= q < i + 1 && ext_of(#[trigger] fs[q]) == Some("png"@)) by {
                    if png {
                        if png0 {
                            let q = choose|q: int|
                                0 <= q < i && ext_of(#[trigger] fs[q]) == Some("png"@);
                            assert(0 <= q < i + 1 && ext_of(fs[q]) == Some("png"@));
                        } else {
                            assert(ext_of(fs[i as int]) == Some("png"@));
                        }
                    } else {
                        if exists|q: int| 0 <= q < i + 1 && ext_of(#[trigger] fs[q]) == Some(
                            "png"@,
                        ) {
                            let q = choose|q: int|
                                0 <= q < i + 1 && ext_of(#[trigger] fs[q]) == Some("png"@);
                            assert(q != i);
                        }
                    }
                }
                assert(jpeg == exists|q: int|
                    0 <= q < i + 1 && (ext_of(#[trigger] fs[q]) == Some("jpeg"@) || ext_of(fs[q])
                        == Some("jpg"@))) by {
                    if jpeg {
                        if jp0 {
                            let q = choose|q: int|
                                0 <= q < i && (ext_of(#[trigger] fs[q]) == Some("jpeg"@) || ext_of(
                                    fs[q],
                                ) == Some("jpg"@));
                            assert(0 <= q < i + 1 && (ext_of(fs[q]) == Some("jpeg"@) || ext_of(
                                fs[q],
                            ) == Some("jpg"@)));
                        } else {
                            assert(ext_of(fs[i as int]) == Some("jpeg"@) || ext_of(fs[i as int])
                                == Some("jpg"@));
                        }
                    } else {
                        if exists|q: int|
                            0 <= q < i + 1 && (ext_of(#[trigger] fs[q]) == Some("jpeg"@) || ext_of(
                                fs[q],
                            ) == Some("jpg"@)) {
                            let q = choose|q: int|
                                0 <= q < i + 1 && (ext_of(#[trigger] fs[q]) == Some("jpeg"@)
                                    || ext_of(fs[q]) == Some("jpg"@));
                            assert(q != i);
                        }
                    }
                }
            }
            i = i + 1;
        }
        proof {
            assert(png == has_png(fs));
            assert(jpeg == has_jpeg(fs));
        }
        let ghost base = self.inner@;
        if png {
            self.inner.append("insmod png\n");
        }
        if jpeg {
            self.inner.append("insmod jpeg\n");
        }
        self.inner.append("# Sets theme.\nset theme=");
        let gb = self.grub_boot.path.clone();
        self.inner.append(gb.as_str());
        self.inner.append("/theme/theme.txt\nexport theme\n# Load theme fonts, if any\n\n");
        let ghost mid = self.inner@;
        let mut f: usize = 0;
        proof {
            assert(mid + font_lines(self.grub_boot.path@, fs.subrange(0, 0)) =~= mid);
            assert(font_lines(self.grub_boot.path@, fs.subrange(0, 0)) =~= Seq::<char>::empty());
        }
        while f < theme_files.len()
            invariant
                f <= theme_files@.len(),
                fs == views_of(theme_files@),
                self.inner@ == mid + font_lines(self.grub_boot.path@, fs.subrange(0, f as int)),
                self.actions@ == afinal,
                *self == (Builder {
                    inner: self.inner,
                    actions: self.actions,
                    ..*old(self)
                }),
            decreases theme_files@.len() - f,
        {
            let ghost ipre = self.inner@;
            let cs = chars_of(theme_files[f].as_str());
            proof {
                assert(fs[f as int] == theme_files@[f as int]@);
            }
            match extension_of(&cs) {
                Some(e) => {
                    let es = string_from_chars(&e);
                    if str_eq(es.as_str(), "pf2") {
                        self.inner.append("loadfont ");
                        let gb2 = self.grub_boot.path.clone();
                        self.inner.append(gb2.as_str());
                        self.inner.append("/theme/");
                        self.inner.append(theme_files[f].as_str());
                        push_char(&mut self.inner, '\n');
                    }
                },
                None => {},
            }
            proof {
                lemma_font_lines_push(self.grub_boot.path@, fs, f as int);
                assert(self.inner@ =~= mid + font_lines(
                    self.grub_boot.path@,
                    fs.subrange(0, f + 1 as int),
                ));
            }
            f = f + 1;
        }
        proof {
            assert(fs.subrange(0, fs.len() as int) =~= fs);
            assert(self.inner@ =~= base + theme_text(self.grub_boot.path@, fs));
            assert(self.inner@ =~= base + theme_part(self.config, self.grub_boot.path@, fs));
        }
    }

    /// Appends the verbatim extra configuration.
    pub fn append_extra_config(&mut self)
        ensures
            final(self).inner@ == old(self).inner@ + old(self).config.extra_config@ + "\n\n"@,
            *final(self) == (Builder { inner: final(self).inner, ..*old(self) }),
    {
        let x = self.config.extra_config.clone();
        self.inner.append(x.as_str());
        self.inner.append("\n\n");
    }

    /// The appearance section: font, splash, theme and extra
    /// configuration, in that order.
    pub fn appearance(&mut self, theme_files: &Vec<String>) -> (r: Result<(), String>)
        requires
            sorted_lex(views_of(theme_files@)),
        ensures
            match r {
                Ok(_) => {
                    &&& final(self).inner@ == old(self).inner@ + appearance_text(
                        old(self).config,
                        old(self).grub_boot.path@,
                        views_of(theme_files@),
                    )
                    &&& *final(self) == (Builder {
                        inner: final(self).inner,
                        actions: final(self).actions,
                        ..*old(self)
                    })
                },
                Err(m) => {
                    &&& old(self).config.splash_image matches Some(img)
                    &&& ext_of(img@) is None
                    &&& m@ == (
                    "Splash image has no extension - could not decide which module to load!"@)
                },
            },
    {
        self.append_font();
        let r = self.append_splash();
        match r {
            Ok(_) => {},
            Err(m) => {
                return Err(m);
            },
        }
        self.append_theme(theme_files);
        self.append_extra_config();
        proof {
            assert(self.inner@ =~= old(self).inner@ + appearance_text(
                old(self).config,
                old(self).grub_boot.path@,
                views_of(theme_files@),
            ));
        }
        Ok(())
    }
}

/// The font lines over a prefix extend one file at a time.
proof fn lemma_font_lines_push(gb: Seq<char>, fs: Seq<Seq<char>>, f: int)
    requires
        0 <= f < fs.len(),
    ensures
        font_lines(gb, fs.subrange(0, f + 1)) =~= font_lines(gb, fs.subrange(0, f)) + (if ext_of(
            fs[f],
        ) == Some("pf2"@) {
            "loadfont "@ + gb + "/theme/"@ + fs[f] + seq!['\n']
        } else {
            Seq::<char>::empty()
        }),
    decreases f,
{
    if f == 0 {
        let s1 = fs.subrange(0, 1);
        assert(s1[0] == fs[0]);
        assert(s1.drop_first() =~= Seq::<Seq<char>>::empty());
        assert(font_lines(gb, s1.drop_first()) == Seq::<char>::empty());
        assert(font_lines(gb, fs.subrange(0, 0)) == Seq::<char>::empty());
    } else {
        lemma_font_lines_push(gb, fs.drop_first(), f - 1);
        let a = fs.subrange(0, f + 1);
        let b = fs.subrange(0, f);
        assert(a[0] == fs[0] && b[0] == fs[0]);
        assert(a.drop_first() =~= fs.drop_first().subrange(0, f));
        assert(b.drop_first() =~= fs.drop_first().subrange(0, f - 1));
        assert(fs.drop_first()[f - 1] == fs[f]);
    }
}

} // verus!
