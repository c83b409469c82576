use grubgen::builder::entries::{GenEntry, GenFacts, ProfileInput, SpecFacts, select_generations, sort_spec_facts};
use grubgen::config::Password;
use grubgen::dates::date_string_from_unix;
use grubgen::strings::{chars_of, parse_uint, replace_all, sort_strings, u64_to_string};
use grubgen::builder::{Action, Builder};
use grubgen::config::{Config, Users};
use grubgen::grub::{FsIdentifier, PathPair};

fn base_config() -> Config {
    Config {
        grub: Some("/nix/store/xxx-grub".to_string()),
        grub_target: Some("i386-pc".to_string()),
        grub_efi: None,
        grub_target_efi: None,
        extra_config: String::new(),
        extra_prepare_config: String::new(),
        extra_per_entry_config: None,
        extra_entries: String::new(),
        extra_entries_before_nixos: false,
        splash_image: None,
        splash_mode: None,
        background_color: None,
        entry_options: "--class nixos".to_string(),
        sub_entry_options: String::new(),
        configuration_limit: 10,
        copy_kernels: true,
        timeout: 5,
        timeout_style: "menu".to_string(),
        default_entry: "0".to_string(),
        fs_identifier: FsIdentifier::Uuid,
        boot_path: "/boot".to_string(),
        store_path: "/nix/store".to_string(),
        gfx_mode_efi: "auto".to_string(),
        gfx_mode_bios: "1024x768".to_string(),
        gfx_payload_efi: "keep".to_string(),
        gfx_payload_bios: "text".to_string(),
        font: "/nix/store/f-font/font.pf2".to_string(),
        theme: None,
        shell: "/bin/sh".to_string(),
        path: "/run/bin".to_string(),
        users: Users(Vec::new()),
        use_os_prober: false,
        can_touch_efi_variables: true,
        efi_install_as_removable: false,
        efi_sys_mount_point: "/boot/efi".to_string(),
        bootloader_id: "NixOS".to_string(),
        force_install: false,
        devices: vec!["/dev/sda".to_string()],
        extra_grub_install_args: Vec::new(),
        full_name: "GNU GRUB".to_string(),
        full_version: "2.12".to_string(),
    }
}

fn boot_pair() -> PathPair {
    PathPair::resolve(FsIdentifier::Uuid, "/boot", "/", "1234-ABCD")
}

fn plain_facts() -> GenFacts {
    GenFacts {
        kernel: Some("/nix/store/aaa-linux/bzImage".to_string()),
        initrd: Some("/nix/store/bbb-initrd/initrd".to_string()),
        init: "/nix/store/ccc-system/init".to_string(),
        kernel_params: "quiet".to_string(),
        xen: None,
        xen_params: String::new(),
        secrets_hook: false,
        hook_status_ok: true,
        hook_tmp_len: 0,
        system_name: "ccc-system".to_string(),
    }
}

fn builder(c: Config) -> Builder {
    Builder::new(
        c,
        "/nix/var/nix/profiles/system".to_string(),
        boot_pair(),
        None,
        false,
    )
}

fn build_full_menu(b: &mut Builder) {
    b.header();
    b.users();
    let theme_files: Vec<String> = Vec::new();
    b.appearance(&theme_files).expect("appearance");
    let entry = GenEntry {
        number: 1,
        date: "2024-01-02".to_string(),
        version: Some("24.05".to_string()),
        facts: plain_facts(),
        specialisations: Vec::new(),
    };
    b.entries(&plain_facts(), &Vec::new(), &vec![entry], &Vec::new()).expect("entries");
}

#[test]
fn bios_only_single_device_menu() {
    let mut b = builder(base_config());
    build_full_menu(&mut b);
    let menu = b.inner.clone();
    assert_eq!(
        menu.matches("search --set=drive1 --fs-uuid 1234-ABCD").count(),
        3,  // header, default entry, the one generation
    );
    assert_eq!(menu.matches("menuentry \"@distroName@ - Configuration 1").count(), 1);
    assert!(menu.contains("  linux /boot/kernels/aaa-linux-bzImage init=/nix/store/ccc-system/init quiet\n"));
    assert!(menu.contains("  initrd /boot/kernels/bbb-initrd-initrd \n"));
    assert!(menu.contains("set timeout=5\n"));
    assert!(menu.contains("set timeout_style=menu\n"));
    assert!(menu.contains("set default=0\n"));
    assert!(menu.contains("submenu \"@distroName@ - All configurations\" --class submenu {\n"));
}

#[test]
fn menu_generation_is_deterministic() {
    let mut b1 = builder(base_config());
    let mut b2 = builder(base_config());
    build_full_menu(&mut b1);
    build_full_menu(&mut b2);
    assert_eq!(b1.inner, b2.inner);
}

#[test]
fn xen_generation_uses_multiboot() {
    let mut facts = plain_facts();
    facts.xen = Some("/nix/store/ddd-xen/xen.gz".to_string());
    facts.xen_params = "dom0_mem=1024M".to_string();
    let mut b = builder(base_config());
    b.add_entry(&"@distroName@".to_string(), &"--class nixos".to_string(), true, &facts)
        .expect("entry");
    let menu = b.inner.clone();
    assert!(menu.contains("  multiboot /boot/kernels/ddd-xen-xen.gz dom0_mem=1024M\n"));
    assert!(menu.contains("  module /boot/kernels/aaa-linux-bzImage init="));
    assert!(menu.contains("  module /boot/kernels/bbb-initrd-initrd \n"));
    assert!(!menu.contains("  linux "));
}

#[test]
fn secrets_success_references_the_secrets_file() {
    let mut facts = plain_facts();
    facts.secrets_hook = true;
    facts.hook_status_ok = true;
    facts.hook_tmp_len = 32;
    let mut b = builder(base_config());
    b.add_entry(&"x".to_string(), &String::new(), true, &facts).expect("entry");
    assert!(b.inner.contains("initrd /boot/kernels/bbb-initrd-initrd /boot/kernels/ccc-system-secrets\n"));
    assert!(b.copied.contains(&"/boot/kernels/ccc-system-secrets".to_string()));
    assert!(b.actions.iter().any(|a| matches!(a, Action::PlaceSecrets { dst } if dst == "/boot/kernels/ccc-system-secrets")));
}

#[test]
fn secrets_failure_on_historical_generation_is_tolerated() {
    let mut facts = plain_facts();
    facts.secrets_hook = true;
    facts.hook_status_ok = false;
    facts.hook_tmp_len = 0;
    let mut b = builder(base_config());
    b.add_entry(&"gen 17".to_string(), &String::new(), false, &facts).expect("entry");
    assert!(!b.inner.contains("-secrets"));
    assert!(b.inner.contains("menuentry \"gen 17\""));
}

#[test]
fn secrets_failure_on_current_system_is_fatal() {
    let mut facts = plain_facts();
    facts.secrets_hook = true;
    facts.hook_status_ok = false;
    let mut b = builder(base_config());
    let e = b.add_entry(&"x".to_string(), &String::new(), true, &facts).unwrap_err();
    assert_eq!(e, "Failed to create initrd secrets");
}

#[test]
fn copied_kernels_are_staged_atomically() {
    let mut b = builder(base_config());
    b.add_entry(&"x".to_string(), &String::new(), true, &plain_facts()).expect("entry");
    // no store pair: both files go through the kernels directory
    assert_eq!(
        b.copied,
        vec![
            "/boot/kernels/aaa-linux-bzImage".to_string(),
            "/boot/kernels/bbb-initrd-initrd".to_string(),
        ],
    );
    assert!(b.actions.iter().all(|a| matches!(a, Action::CopyIfMissing { .. })));
    assert!(!b.inner.contains("search --set=drive1 --label"));
}

#[test]
fn store_pair_skips_copying() {
    let store = PathPair::resolve(FsIdentifier::Label, "/nix/store", "/", "nixstore");
    let mut b = Builder::new(
        base_config(),
        "/nix/var/nix/profiles/system".to_string(),
        boot_pair(),
        Some(store),
        false,
    );
    b.add_entry(&"x".to_string(), &String::new(), true, &plain_facts()).expect("entry");
    assert!(b.copied.is_empty());
    assert!(b.inner.contains("search --set=drive1 --label nixstore\n"));
    assert!(b.inner.contains("  linux /nix/store/aaa-linux/bzImage "));
}

#[test]
fn kernel_outside_store_is_rejected() {
    let mut facts = plain_facts();
    facts.kernel = Some("/opt/kernel".to_string());
    let mut b = builder(base_config());
    let e = b.add_entry(&"x".to_string(), &String::new(), true, &facts).unwrap_err();
    assert_eq!(e, "Path /opt/kernel is not in /nix/store!");
}

#[test]
fn missing_kernel_skips_the_entry() {
    let mut facts = plain_facts();
    facts.kernel = None;
    let mut b = builder(base_config());
    b.add_entry(&"x".to_string(), &String::new(), true, &facts).expect("skip");
    assert!(b.inner.is_empty());
}

#[test]
fn generations_are_selected_newest_first_and_truncated() {
    let listing = vec![
        "system-1-link".to_string(),
        "system-3-link".to_string(),
        "junk".to_string(),
        "other-9-link".to_string(),
        "system-2-link".to_string(),
        "system-10-link".to_string(),
    ];
    let r = select_generations(&listing, "system", 3);
    let nums: Vec<u32> = r.iter().map(|p| p.0).collect();
    assert_eq!(nums, vec![10, 3, 2]);
    assert_eq!(r[0].1, "system-10-link");
    let all = select_generations(&listing, "system", 100);
    let nums: Vec<u32> = all.iter().map(|p| p.0).collect();
    assert_eq!(nums, vec![10, 3, 2, 1]);
}

#[test]
fn specialisations_come_sorted_and_titled() {
    let spec_b = SpecFacts {
        dir_name: "bspec".to_string(),
        date: "2024-01-02".to_string(),
        version: Some("24.05".to_string()),
        fallback_version: None,
        config_name: None,
        facts: plain_facts(),
    };
    let spec_a = SpecFacts {
        dir_name: "aspec".to_string(),
        date: "2024-01-02".to_string(),
        version: None,
        fallback_version: Some("24.05-fallback".to_string()),
        config_name: Some("named".to_string()),
        facts: plain_facts(),
    };
    let sorted = sort_spec_facts(vec![spec_b, spec_a]);
    assert_eq!(sorted[0].dir_name, "aspec");
    let mut b = builder(base_config());
    b.add_generation(
        &"@distroName@ - Configuration 7".to_string(),
        &" (2024-01-02 - 24.05)".to_string(),
        &String::new(),
        false,
        &plain_facts(),
        &sorted,
    )
    .expect("generation");
    let menu = b.inner.clone();
    assert!(menu.contains(
        "submenu \"> @distroName@ - Configuration 7 (2024-01-02 - 24.05)\" --class submenu {\n"
    ));
    assert!(menu.contains("menuentry \"@distroName@ - Configuration 7 - Default (2024-01-02 - 24.05)\""));
    assert!(menu.contains("- Default (2024-01-02 - 24.05) - named\""));
    assert!(menu.contains("- Default (2024-01-02 - 24.05) - (bspec - 2024-01-02 - 24.05)\""));
    // the sub-menu is closed again
    assert!(menu.contains("}\n\nmenuentry") || menu.ends_with("}\n"));
}

#[test]
fn extra_entries_are_substituted_and_placed() {
    let mut c = base_config();
    c.extra_entries = "menuentry \"Windows\" { chainloader (hd0,1)+1 @bootRoot@ }".to_string();
    c.extra_entries_before_nixos = true;
    let mut b = builder(c);
    b.append_default_entries(&plain_facts(), &Vec::new()).expect("default entries");
    let menu = b.inner.clone();
    assert!(menu.starts_with("menuentry \"Windows\" { chainloader (hd0,1)+1 /boot }\n"));
    let windows = menu.find("Windows").unwrap();
    let nixos = menu.find("@distroName@").unwrap();
    assert!(windows < nixos);
}

#[test]
fn invalid_profile_names_are_skipped() {
    let good = ProfileInput { name: "work_2".to_string(), entries: Vec::new() };
    let bad = ProfileInput { name: "bad name".to_string(), entries: Vec::new() };
    let mut b = builder(base_config());
    b.append_profiles(&Vec::new(), &vec![bad, good]).expect("profiles");
    let menu = b.inner.clone();
    assert!(menu.contains("submenu \"@distroName@ - Profile 'work_2'\""));
    assert!(!menu.contains("bad name"));
}

#[test]
fn users_block_lists_passwords_and_superusers() {
    let mut c = base_config();
    c.users = Users(vec![
        ("root".to_string(), Password::Hashed("grub.pbkdf2.sha512.hh".to_string())),
        ("guest".to_string(), Password::Plain("letmein".to_string())),
    ]);
    let mut b = builder(c);
    b.users();
    assert_eq!(
        b.inner,
        "password_pbkdf2 root grub.pbkdf2.sha512.hh\n\
         password guest letmein\n\
         set superusers=\"root guest\"\n",
    );
}

#[test]
fn saved_default_enables_savedefault() {
    let mut c = base_config();
    c.default_entry = "saved".to_string();
    let mut b = builder(c);
    b.header();
    assert!(b.inner.contains("set default=\"${saved_entry}\"\n"));
    b.add_entry(&"x".to_string(), &String::new(), true, &plain_facts()).expect("entry");
    assert!(b.inner.contains("  savedefault\n"));
}

#[test]
fn font_and_splash_blocks() {
    let mut c = base_config();
    c.splash_image = Some("/nix/store/img/splash.jpg".to_string());
    c.splash_mode = Some("stretch".to_string());
    c.background_color = Some("#2F302F".to_string());
    let mut b = builder(c);
    let theme_files: Vec<String> = Vec::new();
    b.appearance(&theme_files).expect("appearance");
    let menu = b.inner.clone();
    assert!(menu.contains("insmod font\nif loadfont /boot/converted-font.pf2; then\n"));
    assert!(menu.contains("set gfxmode=auto\n"));
    assert!(menu.contains("background_color '#2F302F'\n"));
    // jpg is loaded by the jpeg module
    assert!(menu.contains("insmod jpeg\nif background_image --mode 'stretch' /boot/background.jpeg; then"));
    assert!(b.actions.iter().any(
        |a| matches!(a, Action::Copy { src, dst } if src == "/nix/store/img/splash.jpg" && dst == "/boot/background.jpeg"),
    ));
}

#[test]
fn splash_without_extension_is_rejected() {
    let mut c = base_config();
    c.splash_image = Some("/nix/store/img/splash".to_string());
    let mut b = builder(c);
    let theme_files: Vec<String> = Vec::new();
    let e = b.appearance(&theme_files).unwrap_err();
    assert_eq!(e, "Splash image has no extension - could not decide which module to load!");
}

#[test]
fn theme_files_drive_modules_and_fonts() {
    let mut c = base_config();
    c.theme = Some("/nix/store/ttt-theme".to_string());
    let files = sort_strings(vec![
        "theme.txt".to_string(),
        "icons/os.png".to_string(),
        "fonts/unifont.pf2".to_string(),
    ]);
    let mut b = builder(c);
    b.append_theme(&files);
    let menu = b.inner.clone();
    assert!(menu.contains("insmod png\n"));
    assert!(!menu.contains("insmod jpeg"));
    assert!(menu.contains("set theme=/boot/theme/theme.txt\n"));
    assert!(menu.contains("loadfont /boot/theme/fonts/unifont.pf2\n"));
    assert!(b.actions.iter().any(|a| matches!(a, Action::ClearThemeDir { dst } if dst == "/boot/theme")));
    assert!(b.actions.iter().any(
        |a| matches!(a, Action::CopyThemeFile { src, dst } if src == "/nix/store/ttt-theme/theme.txt" && dst == "/boot/theme/theme.txt"),
    ));
}

#[test]
fn dates_render_iso_style() {
    assert_eq!(date_string_from_unix(0).as_deref(), Some("1970-01-01"));
    assert_eq!(date_string_from_unix(86_400).as_deref(), Some("1970-01-02"));
    assert_eq!(date_string_from_unix(1_704_153_600).as_deref(), Some("2024-01-02"));
}

#[test]
fn decimal_helpers_round_trip() {
    assert_eq!(u64_to_string(0), "0");
    assert_eq!(u64_to_string(263), "263");
    assert_eq!(parse_uint(&chars_of("263")), Some(263));
    assert_eq!(parse_uint(&chars_of("+263")), Some(263));
    assert_eq!(parse_uint(&chars_of("")), None);
    assert_eq!(parse_uint(&chars_of("2x")), None);
    assert_eq!(parse_uint(&chars_of("18446744073709551616")), None);
}

#[test]
fn replace_all_substitutes_every_occurrence() {
    assert_eq!(replace_all("a@X@b@X@c", "@X@", "-"), "a-b-c");
    assert_eq!(replace_all("none here", "@X@", "-"), "none here");
}

#[test]
fn specialisation_without_any_version_is_fatal() {
    let spec = SpecFacts {
        dir_name: "broken".to_string(),
        date: "2024-01-02".to_string(),
        version: None,
        fallback_version: None,
        config_name: None,
        facts: plain_facts(),
    };
    let mut b = builder(base_config());
    let e = b
        .add_generation(
            &"x".to_string(),
            &String::new(),
            &String::new(),
            false,
            &plain_facts(),
            &vec![spec],
        )
        .unwrap_err();
    assert_eq!(e, "Could not deduce the current NixOS version");
}
