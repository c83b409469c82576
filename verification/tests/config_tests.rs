use grubgen::config::{Config, Error, Password, PasswordSource, Users, resolve_users, users_sources};
use grubgen::grub::FsIdentifier;
use grubgen::xml::{parse_xml, lookup_key};

fn attr(name: &str, value: &str) -> String {
    format!("<attr name=\"{}\">{}</attr>", name, value)
}

fn s(v: &str) -> String {
    format!("<string value=\"{}\" />", v)
}

fn b(v: bool) -> String {
    format!("<bool value=\"{}\" />", v)
}

fn i(v: u64) -> String {
    format!("<int value=\"{}\" />", v)
}

fn full_document() -> String {
    let mut body = String::new();
    body.push_str(&attr("grub", &s("/nix/store/xxx-grub")));
    body.push_str(&attr("grubTarget", &s("i386-pc")));
    body.push_str(&attr("grubEfi", &s("")));
    body.push_str(&attr("grubTargetEfi", &s("")));
    body.push_str(&attr("extraConfig", &s("")));
    body.push_str(&attr("extraPrepareConfig", &s("")));
    body.push_str(&attr("extraPerEntryConfig", &s("")));
    body.push_str(&attr("extraEntries", &s("")));
    body.push_str(&attr("extraEntriesBeforeNixOS", &b(false)));
    body.push_str(&attr("splashImage", &s("")));
    body.push_str(&attr("splashMode", &s("")));
    body.push_str(&attr("backgroundColor", &s("")));
    body.push_str(&attr("entryOptions", &s("--class nixos")));
    body.push_str(&attr("subEntryOptions", &s("")));
    body.push_str(&attr("configurationLimit", &i(10)));
    body.push_str(&attr("copyKernels", &b(true)));
    body.push_str(&attr("timeout", &i(5)));
    body.push_str(&attr("timeoutStyle", &s("menu")));
    body.push_str(&attr("default", &s("0")));
    body.push_str(&attr("fsIdentifier", &s("uuid")));
    body.push_str(&attr("bootPath", &s("/boot")));
    body.push_str(&attr("storePath", &s("/nix/store")));
    body.push_str(&attr("gfxmodeEfi", &s("auto")));
    body.push_str(&attr("gfxmodeBios", &s("1024x768")));
    body.push_str(&attr("gfxpayloadEfi", &s("keep")));
    body.push_str(&attr("gfxpayloadBios", &s("text")));
    body.push_str(&attr("font", &s("/nix/store/f-font/font.pf2")));
    body.push_str(&attr("theme", &s("")));
    body.push_str(&attr("shell", &s("/bin/sh")));
    body.push_str(&attr("path", &s("/run/bin")));
    body.push_str(&attr("users", "<attrs></attrs>"));
    body.push_str(&attr("useOSProber", &b(false)));
    body.push_str(&attr("canTouchEfiVariables", &b(true)));
    body.push_str(&attr("efiInstallAsRemovable", &b(false)));
    body.push_str(&attr("efiSysMountPoint", &s("/boot/efi")));
    body.push_str(&attr("bootloaderId", &s("NixOS")));
    body.push_str(&attr("forceInstall", &b(false)));
    body.push_str(&attr(
        "devices",
        "<list><string value=\"/dev/sda\" /><string value=\"nodev\" /></list>",
    ));
    body.push_str(&attr("extraGrubInstallArgs", "<list></list>"));
    body.push_str(&attr("fullName", &s("GNU GRUB")));
    body.push_str(&attr("fullVersion", &s("2.12")));
    format!("<expr><attrs>{}</attrs></expr>", body)
}

fn decode(doc: &str) -> Result<Config, Error> {
    let tree = parse_xml(doc).expect("well-formed XML");
    Config::from_xml(&tree, Users(Vec::new()))
}

#[test]
fn decodes_a_full_document() {
    let c = decode(&full_document()).expect("decodes");
    assert_eq!(c.grub.as_deref(), Some("/nix/store/xxx-grub"));
    assert_eq!(c.grub_target.as_deref(), Some("i386-pc"));
    assert!(c.grub_efi.is_none());
    assert!(c.grub_target_efi.is_none());
    assert_eq!(c.configuration_limit, 10);
    assert_eq!(c.timeout, 5);
    assert!(matches!(c.fs_identifier, FsIdentifier::Uuid));
    assert_eq!(c.boot_path, "/boot");
    assert_eq!(c.devices, vec!["/dev/sda".to_string(), "nodev".to_string()]);
    assert!(c.copy_kernels);
    assert_eq!(c.full_version, "2.12");
}

#[test]
fn rejects_wrong_root() {
    let tree = parse_xml("<wrong><attrs></attrs></wrong>").expect("parses");
    let e = Config::from_xml(&tree, Users(Vec::new())).unwrap_err();
    assert!(matches!(e, Error::RootIsNotExpr));
}

#[test]
fn rejects_missing_key() {
    let doc = full_document().replace("bootPath", "bootPathX");
    let e = decode(&doc).unwrap_err();
    match e {
        Error::KeyNotFound { key } => assert_eq!(key, "bootPath"),
        other => panic!("unexpected error: {}", other.message()),
    }
}

#[test]
fn rejects_wrong_tag() {
    let doc = full_document().replace(
        "<attr name=\"timeout\"><int value=\"5\" /></attr>",
        "<attr name=\"timeout\"><string value=\"5\" /></attr>",
    );
    let e = decode(&doc).unwrap_err();
    match e {
        Error::UnexpectedTag { expected, found } => {
            assert_eq!(expected, "int");
            assert_eq!(found, "string");
        },
        other => panic!("unexpected error: {}", other.message()),
    }
}

#[test]
fn rejects_bad_integer() {
    let doc = full_document().replace(
        "<attr name=\"timeout\"><int value=\"5\" /></attr>",
        "<attr name=\"timeout\"><int value=\"5x\" /></attr>",
    );
    let e = decode(&doc).unwrap_err();
    match e {
        Error::InvalidInt(t) => assert_eq!(t, "5x"),
        other => panic!("unexpected error: {}", other.message()),
    }
}

#[test]
fn rejects_integer_overflow() {
    let doc = full_document().replace(
        "<attr name=\"timeout\"><int value=\"5\" /></attr>",
        "<attr name=\"timeout\"><int value=\"4294967296\" /></attr>",
    );
    let e = decode(&doc).unwrap_err();
    assert!(matches!(e, Error::InvalidInt(_)));
}

#[test]
fn rejects_bad_fs_identifier() {
    let doc = full_document().replace(
        "<attr name=\"fsIdentifier\"><string value=\"uuid\" /></attr>",
        "<attr name=\"fsIdentifier\"><string value=\"guid\" /></attr>",
    );
    let e = decode(&doc).unwrap_err();
    match e {
        Error::InvalidFsIdentifier(t) => assert_eq!(t, "guid"),
        other => panic!("unexpected error: {}", other.message()),
    }
}

#[test]
fn malformed_xml_is_refused() {
    assert!(parse_xml("<expr><attrs></expr>").is_none());
}

#[test]
fn user_sources_pick_first_available() {
    let doc = format!(
        "<expr><attrs>{}</attrs></expr>",
        attr(
            "users",
            "<attrs>\
             <attr name=\"alice\"><attrs>\
               <attr name=\"hashedPassword\"><string value=\"grub.pbkdf2.sha512.h\" /></attr>\
               <attr name=\"password\"><string value=\"plain\" /></attr>\
             </attrs></attr>\
             <attr name=\"bob\"><attrs>\
               <attr name=\"password\"><string value=\"secret\" /></attr>\
             </attrs></attr>\
             </attrs>",
        )
    );
    let tree = parse_xml(&doc).expect("parses");
    let root_attrs = lookup_key(
        grubgen::xml::first_element_child(&tree).expect("attrs"),
        "users",
    );
    let users_node = root_attrs.expect("users key");
    let sources = users_sources(users_node).expect("sources");
    assert_eq!(sources.len(), 2);
    assert_eq!(sources[0].0, "alice");
    assert!(matches!(sources[0].1, PasswordSource::HashedText(_)));
    assert_eq!(sources[1].0, "bob");
    assert!(matches!(sources[1].1, PasswordSource::PlainText(_)));
}

#[test]
fn user_without_source_is_rejected() {
    let doc = "<expr><attrs><attr name=\"users\"><attrs>\
               <attr name=\"carol\"><attrs></attrs></attr>\
               </attrs></attr></attrs></expr>";
    let tree = parse_xml(doc).expect("parses");
    let users_node =
        lookup_key(grubgen::xml::first_element_child(&tree).expect("attrs"), "users").unwrap();
    let e = users_sources(users_node).unwrap_err();
    match e {
        Error::PasswordNotFound { user } => assert_eq!(user, "carol"),
        other => panic!("unexpected error: {}", other.message()),
    }
}

#[test]
fn resolve_validates_hash_prefix() {
    let sources = vec![("dave".to_string(), PasswordSource::HashedText("plainhash".to_string()))];
    let files = vec![None];
    let e = resolve_users(&sources, &files).unwrap_err();
    match e {
        Error::InvalidHashedPassword { hash, user } => {
            assert_eq!(hash, "plainhash");
            assert_eq!(user, "dave");
        },
        other => panic!("unexpected error: {}", other.message()),
    }
}

#[test]
fn resolve_reads_hashed_file_contents() {
    let sources = vec![
        ("erin".to_string(), PasswordSource::HashedFile("/tmp/x".to_string())),
        ("frank".to_string(), PasswordSource::PlainText("pw".to_string())),
    ];
    let files = vec![Some("grub.pbkdf2.sha512.zz".to_string()), None];
    let users = resolve_users(&sources, &files).expect("resolves");
    assert_eq!(users.0.len(), 2);
    assert!(matches!(&users.0[0].1, Password::Hashed(h) if h == "grub.pbkdf2.sha512.zz"));
    assert!(matches!(&users.0[1].1, Password::Plain(p) if p == "pw"));
}

#[test]
fn resolve_missing_file_is_io_error() {
    let sources = vec![("gail".to_string(), PasswordSource::PlainFile("/gone".to_string()))];
    let files = vec![None];
    let e = resolve_users(&sources, &files).unwrap_err();
    assert!(matches!(e, Error::Io(_)));
}

#[test]
fn save_default_is_the_saved_literal() {
    let mut c = decode(&full_document()).expect("decodes");
    assert!(!c.save_default());
    c.default_entry = "saved".to_string();
    assert!(c.save_default());
}

#[test]
fn copy_kernels_forced_on_different_devices() {
    let mut c = decode(&full_document()).expect("decodes");
    c.copy_kernels = false;
    c.reconcile_copy_kernels(5, 5);
    assert!(!c.copy_kernels);
    c.reconcile_copy_kernels(5, 7);
    assert!(c.copy_kernels);
}

#[test]
fn error_messages_name_the_culprit() {
    let e = Error::KeyNotFound { key: "font".to_string() };
    assert_eq!(e.message(), "Key font not found in attrs");
    let e = Error::InvalidFsIdentifier("zfsid".to_string());
    assert_eq!(e.message(), "Invalid file system identifier: zfsid");
}

#[test]
fn string_without_value_attribute_is_rejected() {
    let doc = full_document().replace(
        "<attr name=\"bootPath\"><string value=\"/boot\" /></attr>",
        "<attr name=\"bootPath\"><string /></attr>",
    );
    let e = decode(&doc).unwrap_err();
    assert!(matches!(e, Error::ValueAttrNotFound));
}

#[test]
fn empty_root_is_rejected() {
    let tree = parse_xml("<expr></expr>").expect("parses");
    let e = Config::from_xml(&tree, Users(Vec::new())).unwrap_err();
    assert!(matches!(e, Error::RootExprIsEmpty));
}
