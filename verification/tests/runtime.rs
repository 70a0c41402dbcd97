use awsvpn::openvpn::runtime::{
    bundled_candidates, validate_file, FileKind, OpenVpnRuntime, OpenVpnRuntimeSource,
};
use awsvpn::runtime::{
    bundled_binary, check_extracted, checked_destination, deploy_openvpn_runtime,
    extract_bundled_runtime, is_executable, runtime_dir, BundledRuntime, BundledRuntimeFile, DeployPlan,
};
use awsvpn::{bundled_runtime_available, bundled_runtime_target, Error};

fn bundled() -> BundledRuntime {
    let file = |name: &str, executable| BundledRuntimeFile {
        relative_path: name.to_string(),
        bytes: b"#!/bin/sh\n".to_vec(),
        executable,
    };
    BundledRuntime {
        target: "test-target".to_string(),
        id: "test-id".to_string(),
        files: vec![file("acvc-openvpn", true), file("lib/notes", false)],
    }
}

#[test]
fn explicit_path_wins() {
    let runtime = OpenVpnRuntime::discover(
        Some(("/tmp/x/acvc-openvpn".to_string(), FileKind::File)),
        Some(("/env/openvpn".to_string(), FileKind::File)),
        Ok(vec![("/bundle/openvpn".to_string(), FileKind::File)]),
    )
    .unwrap();

    assert_eq!(runtime.binary, "/tmp/x/acvc-openvpn");
    assert_eq!(runtime.source, OpenVpnRuntimeSource::Explicit);
}

#[test]
fn explicit_path_must_exist() {
    let err = OpenVpnRuntime::discover(
        Some(("/definitely/missing/openvpn".to_string(), FileKind::Missing)),
        None,
        Ok(Vec::new()),
    )
    .unwrap_err();

    assert!(matches!(err, Error::InvalidConfig(_)));
}

#[test]
fn looks_in_the_environment_and_beside_the_client() {
    let found = OpenVpnRuntime::discover(
        None,
        Some(("/env/openvpn".to_string(), FileKind::File)),
        Err(Error::Interrupted),
    )
    .unwrap();
    assert_eq!(found.source, OpenVpnRuntimeSource::Environment);

    let list = |kind| {
        Ok(vec![
            ("/a".to_string(), FileKind::Missing),
            ("/b".to_string(), kind),
            ("/c".to_string(), FileKind::File),
        ])
    };
    let found = OpenVpnRuntime::discover(None, None, list(FileKind::File)).unwrap();
    assert_eq!((found.binary.as_str(), found.source), ("/b", OpenVpnRuntimeSource::Bundled));
    let found = OpenVpnRuntime::discover(None, None, list(FileKind::Other)).unwrap();
    assert_eq!(found.binary, "/c");
    assert!(matches!(
        OpenVpnRuntime::discover(None, None, Ok(Vec::new())),
        Err(Error::OpenVpnNotFound)
    ));
    assert!(matches!(
        OpenVpnRuntime::discover(None, None, Err(Error::Interrupted)),
        Err(Error::Interrupted)
    ));
}

#[test]
fn names_what_is_wrong_with_a_file() {
    let message = |kind| validate_file("/x", kind, "OpenVPN binary").unwrap_err().message();
    assert_eq!(
        message(FileKind::Missing),
        "invalid VPN config: OpenVPN binary does not exist: /x"
    );
    assert_eq!(
        message(FileKind::Other),
        "invalid VPN config: OpenVPN binary is not a file: /x"
    );
    assert!(validate_file("/x", FileKind::File, "x").is_ok());
}

#[test]
fn lists_the_places_for_a_bundled_program() {
    let list = bundled_candidates(Ok("/opt/bin/awsvpn".to_string()), false).unwrap();
    assert_eq!(
        list,
        [
            "/opt/bin/openvpn/acvc-openvpn",
            "/opt/bin/openvpn/openvpn",
            "/opt/bin/resources/openvpn/acvc-openvpn",
            "/opt/bin/resources/openvpn/openvpn",
            "/opt/bin/runtime/openvpn/acvc-openvpn",
            "/opt/bin/runtime/openvpn/openvpn",
            "/opt/bin/../libexec/awsvpn/openvpn/acvc-openvpn",
            "/opt/bin/../libexec/awsvpn/openvpn/openvpn",
        ]
    );
    let list = bundled_candidates(Ok("awsvpn.exe".to_string()), true).unwrap();
    assert_eq!(list[1], "openvpn\\openvpn.exe");
    let list = bundled_candidates(Ok("C:\\a.exe".to_string()), true).unwrap();
    assert_eq!(list[0], "C:\\openvpn\\acvc-openvpn.exe");
    let list = bundled_candidates(Ok("C:\\VPN\\awsvpn.exe".to_string()), true).unwrap();
    assert_eq!(
        list,
        [
            "C:\\VPN\\openvpn\\acvc-openvpn.exe",
            "C:\\VPN\\openvpn\\openvpn.exe",
            "C:\\VPN\\resources\\openvpn\\acvc-openvpn.exe",
            "C:\\VPN\\resources\\openvpn\\openvpn.exe",
            "C:\\VPN\\runtime\\openvpn\\acvc-openvpn.exe",
            "C:\\VPN\\runtime\\openvpn\\openvpn.exe",
            "C:\\VPN\\..\\libexec\\awsvpn\\openvpn\\acvc-openvpn.exe",
            "C:\\VPN\\..\\libexec\\awsvpn\\openvpn\\openvpn.exe",
        ]
    );
    let list = bundled_candidates(Ok("\\\\?\\C:\\VPN\\awsvpn.exe".to_string()), true).unwrap();
    assert_eq!(list[0], "\\\\?\\C:\\VPN\\openvpn\\acvc-openvpn.exe");
    assert_eq!(list[7], "\\\\?\\C:\\libexec\\awsvpn\\openvpn\\openvpn.exe");
    assert!(matches!(
        bundled_candidates(Ok("C:\\".to_string()), true),
        Err(Error::InvalidConfig(_))
    ));
    assert!(matches!(
        bundled_candidates(Ok("/".to_string()), false),
        Err(Error::InvalidConfig(_))
    ));
    assert!(matches!(
        bundled_candidates(Err("x".to_string()), false),
        Err(Error::OpenVpnProcess(cause)) if cause == "x"
    ));
}

#[test]
fn chooses_how_the_program_is_made_ready() {
    assert!(matches!(
        deploy_openvpn_runtime(&awsvpn::OpenVpnRuntime::external("/x".to_string()), "t", false),
        Ok(DeployPlan::Use(path)) if path == "/x"
    ));
    assert!(matches!(
        deploy_openvpn_runtime(&awsvpn::OpenVpnRuntime::Bundled, "t", true),
        Ok(DeployPlan::Extract)
    ));
    assert_eq!(
        deploy_openvpn_runtime(&awsvpn::OpenVpnRuntime::Bundled, "t", false).unwrap_err().message(),
        "no bundled OpenVPN runtime is available for t"
    );
    assert!(!bundled_runtime_available(&None));
    assert!(bundled_runtime_available(&Some(bundled())));
    assert_eq!(bundled_runtime_target(&None, "host"), "host");
    assert_eq!(bundled_runtime_target(&Some(bundled()), "host"), "test-target");
}

#[test]
fn extracts_bundled_runtime_to_tempdir() {
    let dir = runtime_dir("/tmp/x", false);
    let mut files = bundled().files.into_iter();
    let file = files.next().unwrap();
    let bytes = file.bytes.clone();
    let step = extract_bundled_runtime(&dir, file, false).unwrap();
    assert_eq!(step.bytes, bytes);
    assert_eq!(step.destination, bundled_binary(&dir, false));
    assert_eq!(step.destination, "/tmp/x/openvpn/acvc-openvpn");
    assert_eq!(step.parent, Some("/tmp/x/openvpn".to_string()));
    assert_eq!(step.mode, 0o755);
    let step = extract_bundled_runtime(&dir, files.next().unwrap(), false).unwrap();
    assert_eq!(step.parent, Some("/tmp/x/openvpn/lib".to_string()));
    assert_eq!(step.mode, 0o644);
    assert!(check_extracted(true).is_ok());
    assert!(matches!(check_extracted(false), Err(Error::BundledOpenVpnInvalid(_))));
}

#[test]
fn tells_which_bundled_files_are_run() {
    for name in ["acvc-openvpn", "client.up", "client.down"] {
        assert!(is_executable(name, 0o644));
    }
    assert!(is_executable("lib/tool", 0o100755));
    assert!(is_executable("lib/tool", 0o001));
    assert!(!is_executable("lib/data", 0o100644));
    assert!(!is_executable("bin/client.up", 0));
}

#[test]
fn rejects_invalid_bundled_runtime_paths() {
    let err = checked_destination("/tmp/root", "../acvc-openvpn", false).unwrap_err();
    assert!(matches!(err, Error::BundledOpenVpnInvalid(_)));
}

#[test]
fn extraction_stays_inside_the_directory() {
    for path in ["a", "a/b", "a//b", "a/./b", "a/"] {
        let found = checked_destination("/root", path, false).unwrap();
        assert_eq!(found, format!("/root/{path}"));
    }
    for path in ["/a", "..", "a/..", "./a", "a/../b", "."] {
        assert!(checked_destination("/root", path, false).is_err(), "{path}");
    }
    assert_eq!(
        checked_destination("/root", "/a", false).unwrap_err().message(),
        "bundled OpenVPN runtime is invalid: bundled runtime path is absolute: /a"
    );
}

#[test]
fn extraction_stays_inside_the_directory_on_windows() {
    let root = "C:\\Temp\\openvpn";
    for path in ["a", "a/b", "a\\b", "a//b", "a\\.\\b"] {
        let found = checked_destination(root, path, true).unwrap();
        assert_eq!(found, format!("{root}\\{path}"));
    }
    for path in ["..\\a", "a\\..\\b", ".\\a", "a/..", "\\a", "/a", "C:a"] {
        assert_eq!(
            checked_destination(root, path, true).unwrap_err().message(),
            format!("bundled OpenVPN runtime is invalid: bundled runtime path is invalid: {path}")
        );
    }
    for path in ["C:\\a", "\\\\server\\share\\a"] {
        assert_eq!(
            checked_destination(root, path, true).unwrap_err().message(),
            format!("bundled OpenVPN runtime is invalid: bundled runtime path is absolute: {path}")
        );
    }
    assert_eq!(checked_destination("/root", "a\\..\\b", false).unwrap(), "/root/a\\..\\b");
    assert_eq!(
        checked_destination("\\\\?\\C:\\Temp", "a/./b", true).unwrap(),
        "\\\\?\\C:\\Temp\\a\\b"
    );
}
