use grubgen::config::{Config, Users};
use grubgen::grub::FsIdentifier;
use grubgen::install::{
    EfiTarget, bios_install_cmd, devices_to_install, efi_install_cmd, obsolete_kernels,
    os_prober_cmd, prepare_config_cmd,
};
use grubgen::state::GrubState;

fn base_config() -> Config {
    Config {
        grub: Some("/nix/store/xxx-grub".to_string()),
        grub_target: Some("i386-pc".to_string()),
        grub_efi: None,
        grub_target_efi: None,
        extra_config: String::new(),
        extra_prepare_config: String::new(),
        extra_per_entry_config: None,
        extra_entries: String::new(),
        extra_entries_before_nixos: false,
        splash_image: None,
        splash_mode: None,
        background_color: None,
        entry_options: "--class nixos".to_string(),
        sub_entry_options: String::new(),
        configuration_limit: 10,
        copy_kernels: true,
        timeout: 5,
        timeout_style: "menu".to_string(),
        default_entry: "0".to_string(),
        fs_identifier: FsIdentifier::Uuid,
        boot_path: "/boot".to_string(),
        store_path: "/nix/store".to_string(),
        gfx_mode_efi: "auto".to_string(),
        gfx_mode_bios: "1024x768".to_string(),
        gfx_payload_efi: "keep".to_string(),
        gfx_payload_bios: "text".to_string(),
        font: "/nix/store/f-font/font.pf2".to_string(),
        theme: None,
        shell: "/bin/sh".to_string(),
        path: "/run/bin".to_string(),
        users: Users(Vec::new()),
        use_os_prober: false,
        can_touch_efi_variables: true,
        efi_install_as_removable: false,
        efi_sys_mount_point: "/boot/efi".to_string(),
        bootloader_id: "NixOS".to_string(),
        force_install: false,
        devices: vec!["/dev/sda".to_string()],
        extra_grub_install_args: Vec::new(),
        full_name: "GNU GRUB".to_string(),
        full_version: "2.12".to_string(),
    }
}

fn efi_config() -> Config {
    let mut c = base_config();
    c.grub_efi = Some("/nix/store/yyy-grub-efi".to_string());
    c.grub_target_efi = Some("x86_64-efi".to_string());
    c
}

#[test]
fn target_matrix_strings() {
    let bios = EfiTarget::deduce(&base_config()).expect("bios");
    assert_eq!(bios.to_str(), "no");
    let both = EfiTarget::deduce(&efi_config()).expect("both");
    assert_eq!(both.to_str(), "both");
    let mut c = efi_config();
    c.grub = None;
    c.grub_target = None;
    let efi = EfiTarget::deduce(&c).expect("efi only");
    assert_eq!(efi.to_str(), "only");
    let mut c2 = base_config();
    c2.grub = None;
    let neither = EfiTarget::deduce(&c2).expect("neither");
    assert_eq!(neither.to_str(), "neither");
}

#[test]
fn efi_without_target_is_rejected() {
    let mut c = base_config();
    c.grub = None;
    c.grub_efi = Some("/nix/store/yyy".to_string());
    let e = EfiTarget::deduce(&c).unwrap_err();
    assert_eq!(e, "EFI can only be installed when target is set");
    let mut c2 = efi_config();
    c2.grub_target = None;
    let e2 = EfiTarget::deduce(&c2).unwrap_err();
    assert!(e2.starts_with("EFI can only be installed when target is set;"));
}

#[test]
fn bios_install_command_line() {
    let c = base_config();
    let t = EfiTarget::deduce(&c).expect("bios");
    let (bios, bios_target) = t.bios().expect("bios pair");
    let cmd = bios_install_cmd(&c, bios, bios_target, "/tmp/grub-root", "/dev/sda");
    assert_eq!(cmd.program, "/nix/store/xxx-grub/sbin/grub-install");
    assert_eq!(
        cmd.args,
        vec![
            "--recheck".to_string(),
            "--root-directory=/tmp/grub-root".to_string(),
            "/dev/sda".to_string(),
            "--target=i386-pc".to_string(),
        ],
    );
    assert!(cmd.env.is_empty());
}

#[test]
fn efi_install_command_line() {
    let mut c = efi_config();
    c.can_touch_efi_variables = false;
    c.efi_install_as_removable = true;
    c.force_install = true;
    c.extra_grub_install_args = vec!["--modules=nativedisk".to_string()];
    let t = EfiTarget::deduce(&c).expect("both");
    let (efi, efi_target) = t.efi().expect("efi pair");
    let cmd = efi_install_cmd(&c, efi, efi_target);
    assert_eq!(cmd.program, "/nix/store/yyy-grub-efi/sbin/grub-install");
    assert_eq!(
        cmd.args,
        vec![
            "--recheck".to_string(),
            "--target=x86_64-efi".to_string(),
            "--boot-directory=/boot".to_string(),
            "--efi-directory=/boot/efi".to_string(),
            "--modules=nativedisk".to_string(),
            "--force".to_string(),
            "--bootloader-id=NixOS".to_string(),
            "--no-nvram".to_string(),
            "--removable".to_string(),
        ],
    );
}

#[test]
fn os_prober_command_exports_savedefault() {
    let mut c = base_config();
    c.default_entry = "saved".to_string();
    let pkg = "/nix/store/xxx-grub".to_string();
    let cmd = os_prober_cmd(&c, &pkg, "/boot/grub/grub.cfg.tmp");
    assert_eq!(cmd.program, "/bin/sh");
    assert_eq!(cmd.args[0], "-c");
    assert_eq!(
        cmd.args[1],
        "pkgdatadir=/nix/store/xxx-grub/share/grub /nix/store/xxx-grub/etc/grub.d/30_os-prober >> /boot/grub/grub.cfg.tmp",
    );
    assert_eq!(cmd.env, vec![("GRUB_SAVEDEFAULT".to_string(), "true".to_string())]);
    let plain = os_prober_cmd(&base_config(), &pkg, "/boot/grub/grub.cfg.tmp");
    assert!(plain.env.is_empty());
}

#[test]
fn prepare_config_substitutes_boot_path() {
    let mut c = base_config();
    c.extra_prepare_config = "mkdir -p @bootPath@/extra".to_string();
    let cmd = prepare_config_cmd(&c).expect("some command");
    assert_eq!(cmd.args, vec!["-c".to_string(), "mkdir -p /boot/extra".to_string()]);
    assert!(prepare_config_cmd(&base_config()).is_none());
}

#[test]
fn nodev_is_skipped() {
    let mut c = base_config();
    c.devices = vec!["nodev".to_string(), "/dev/sda".to_string(), "nodev".to_string()];
    assert_eq!(devices_to_install(&c), vec!["/dev/sda".to_string()]);
}

#[test]
fn obsolete_files_are_the_unretained_ones() {
    let listing = vec![
        "/boot/kernels/a".to_string(),
        "/boot/kernels/b".to_string(),
        "/boot/kernels/c".to_string(),
    ];
    let copied = vec!["/boot/kernels/b".to_string()];
    let gone = obsolete_kernels(&listing, &copied);
    assert_eq!(gone, vec!["/boot/kernels/a".to_string(), "/boot/kernels/c".to_string()]);
    // everything listed is either retained or deleted, never both
    for f in &listing {
        assert_eq!(copied.contains(f), !gone.contains(f));
    }
}

#[test]
fn state_renders_and_parses_back() {
    let s = GrubState {
        name: "GNU GRUB".to_string(),
        version: "2.12".to_string(),
        efi: "no".to_string(),
        devices: vec!["/dev/sda".to_string(), "/dev/sdb".to_string()],
        efi_mount_point: "/boot/efi".to_string(),
        extra_grub_install_args: vec!["--modules=part_gpt".to_string()],
    };
    let text = s.render();
    assert!(text.starts_with("GNU GRUB\n2.12\nno\n/dev/sda,/dev/sdb\n/boot/efi\n"));
    let back = GrubState::parse(&text).expect("parses");
    assert_eq!(back.name, "GNU GRUB");
    assert_eq!(back.version, "2.12");
    assert_eq!(back.efi, "no");
    assert_eq!(back.devices, vec!["/dev/sda".to_string(), "/dev/sdb".to_string()]);
    assert_eq!(back.efi_mount_point, "/boot/efi");
    assert_eq!(back.extra_grub_install_args, vec!["--modules=part_gpt".to_string()]);
}

#[test]
fn five_line_state_files_are_accepted() {
    let back = GrubState::parse("n\nv\nboth\n/dev/sda\n/boot/efi\n").expect("parses");
    assert_eq!(back.efi, "both");
    assert!(back.extra_grub_install_args.is_empty());
    // an empty sixth line means the same
    let back2 = GrubState::parse("n\nv\nboth\n/dev/sda\n/boot/efi\n\n").expect("parses");
    assert!(back2.extra_grub_install_args.is_empty());
}

#[test]
fn corrupt_state_loads_as_empty() {
    let short = GrubState::load(Some(&"one\ntwo\n".to_string()));
    assert_eq!(short.name, "");
    assert!(short.devices.is_empty());
    let bad_json = GrubState::load(Some(&"n\nv\nno\nd\nm\nnot json\n".to_string()));
    assert_eq!(bad_json.name, "");
    let missing = GrubState::load(None);
    assert_eq!(missing.name, "");
}

#[test]
fn reconciliation_detects_a_changed_version() {
    let c = base_config();
    let t = EfiTarget::deduce(&c).expect("bios");
    let mut state = GrubState::load(None);
    // first run: everything differs from the empty record
    assert!(state.update(&c, &t));
    assert_eq!(state.efi, "no");
    assert_eq!(state.version, "2.12");
    // a rerun whose version differs by one character reinstalls
    let mut again = GrubState::parse(&state.render()).expect("parses");
    let mut c2 = base_config();
    c2.full_version = "2.13".to_string();
    c2.devices = Vec::new();
    assert!(again.update(&c2, &t));
    assert_eq!(again.version, "2.13");
}

#[test]
fn reconciliation_is_clean_on_a_true_rerun() {
    // the reconciler replaces the device list only when it overlaps the
    // persisted one, so a rerun is clean when no devices are listed
    let mut c = base_config();
    c.devices = Vec::new();
    let t = EfiTarget::deduce(&c).expect("bios");
    let mut state = GrubState::load(None);
    assert!(state.update(&c, &t));
    let text = state.render();
    let mut reloaded = GrubState::parse(&text).expect("parses");
    assert!(!reloaded.update(&c, &t));
    assert_eq!(reloaded.render(), text);
}

#[test]
fn overlapping_device_lists_mark_dirty() {
    let c = base_config();
    let t = EfiTarget::deduce(&c).expect("bios");
    let mut state = GrubState {
        name: c.full_name.clone(),
        version: c.full_version.clone(),
        efi: "no".to_string(),
        devices: vec!["/dev/sda".to_string()],
        efi_mount_point: c.efi_sys_mount_point.clone(),
        extra_grub_install_args: Vec::new(),
    };
    // same device list persisted: the sets overlap, so a reinstall is
    // reported even though nothing changed
    assert!(state.update(&c, &t));
    // a disjoint device list leaves the record clean
    let mut disjoint = GrubState {
        devices: vec!["/dev/sdb".to_string()],
        name: c.full_name.clone(),
        version: c.full_version.clone(),
        efi: "no".to_string(),
        efi_mount_point: c.efi_sys_mount_point.clone(),
        extra_grub_install_args: Vec::new(),
    };
    assert!(!disjoint.update(&c, &t));
    // the stale device list is kept in that case, as documented
    assert_eq!(disjoint.devices, vec!["/dev/sdb".to_string()]);
}

#[test]
fn carriage_returns_are_stripped_from_state_lines() {
    let back = GrubState::parse("n\r\nv\r\nonly\r\n/dev/sda\r\n/boot/efi\r\n").expect("parses");
    assert_eq!(back.name, "n");
    assert_eq!(back.efi, "only");
    assert_eq!(back.efi_mount_point, "/boot/efi");
}
