use hybrid_mount::kasumi::kasumi_spoof_cmdline;
use hybrid_mount::kasumi::{
    add_rule, add_rules_from_directory, check_status, complete_call, cstring_from_path,
    errno_hint, feature_names, get_hooks, get_protocol_version, has_nul_bytes,
    invalidate_status_cache, kasumi_spoof_uname, kernel_is_supported, kernel_release_prefix,
    list_output, list_rules, module_loaded, remove_rules_from_directory, restore_uname_global,
    set_cmdline_str, set_selinux_fix, status_from_probe, status_name, write_bytes_into_c_buf,
    CallOutcome, ErrnoClass, HelperEntry, HelperKind, KasumiAbi, KasumiError,
    KasumiFeatureBits, KasumiProbe, KasumiRequest, KasumiStatus, StatusCache,
};

fn bits() -> KasumiFeatureBits {
    KasumiFeatureBits {
        kstat_spoof: 1,
        uname_spoof: 2,
        cmdline_spoof: 4,
        selinux_bypass: 8,
        merge_dir: 16,
        mount_hide: 32,
        maps_spoof: 64,
        statfs_spoof: 128,
        fake_mountinfo: 256,
        selinux_fix: 512,
    }
}

fn abi() -> KasumiAbi {
    KasumiAbi {
        protocol_version: 1,
        features: bits(),
        kstat_pathname_len: 8,
        uname_field_len: 4,
        cmdline_len: 6,
        maps_pathname_len: 8,
        mount_hide_pattern_len: 8,
        statfs_path_len: 8,
    }
}

#[test]
fn status_names_are_stable() {
    assert_eq!(status_name(KasumiStatus::Available), "available");
    assert_eq!(status_name(KasumiStatus::NotPresent), "not_present");
    assert_eq!(status_name(KasumiStatus::KernelNotSupported), "kernel_not_supported");
    assert_eq!(status_name(KasumiStatus::ModuleTooOld), "module_too_old");
}

#[test]
fn kernel_support_goes_by_major_minor() {
    let prefix: String = kernel_release_prefix("5.10.198-android12-9").into_iter().collect();
    assert_eq!(prefix, "5.10");
    assert!(kernel_is_supported("5.10.198-android12-9"));
    assert!(kernel_is_supported("6.12"));
    assert!(!kernel_is_supported("6.121.0"));
    assert!(!kernel_is_supported("4.19.1"));
    assert!(!kernel_is_supported("nodots"));
}

#[test]
fn module_list_lines_name_the_module() {
    assert!(module_loaded("foo 1 0\nkasumi_lkm 16384 0 - Live\n"));
    assert!(module_loaded("kasumi\t1 0"));
    assert!(!module_loaded("kasumi_other 1 0\nx kasumi 1\n"));
}

#[test]
fn probe_decides_status_against_expected_protocol() {
    let probe = |k, m, v| KasumiProbe { kernel_supported: k, module_loaded: m, protocol_version: v };
    assert_eq!(status_from_probe(&probe(false, true, Some(3)), 3), KasumiStatus::KernelNotSupported);
    assert_eq!(status_from_probe(&probe(true, false, Some(3)), 3), KasumiStatus::NotPresent);
    assert_eq!(status_from_probe(&probe(true, true, None), 3), KasumiStatus::NotPresent);
    assert_eq!(status_from_probe(&probe(true, true, Some(2)), 3), KasumiStatus::KernelNotSupported);
    assert_eq!(status_from_probe(&probe(true, true, Some(4)), 3), KasumiStatus::ModuleTooOld);
    assert_eq!(status_from_probe(&probe(true, true, Some(3)), 3), KasumiStatus::Available);
}

#[test]
fn status_is_cached_until_invalidated() {
    let good = KasumiProbe { kernel_supported: true, module_loaded: true, protocol_version: Some(1) };
    let bad = KasumiProbe { kernel_supported: false, module_loaded: false, protocol_version: None };
    let mut cache = StatusCache::new();
    assert_eq!(check_status(&mut cache, &good, 1), KasumiStatus::Available);
    assert_eq!(check_status(&mut cache, &bad, 1), KasumiStatus::Available);
    invalidate_status_cache(&mut cache);
    assert_eq!(cache, StatusCache::new());
    assert_eq!(check_status(&mut cache, &bad, 1), KasumiStatus::KernelNotSupported);
}

#[test]
fn feature_names_follow_the_table_order() {
    assert_eq!(feature_names(1 | 16 | 512, &bits()), vec!["kstat_spoof", "merge_dir", "selinux_fix"]);
    assert!(feature_names(0, &bits()).is_empty());
}

#[test]
fn c_buffers_are_nul_padded_or_refused() {
    let mut buf = vec![9u8; 4];
    write_bytes_into_c_buf(&mut buf, b"ab", "field").unwrap();
    assert_eq!(buf, vec![b'a', b'b', 0, 0]);
    let err = write_bytes_into_c_buf(&mut buf, b"abcd", "field").unwrap_err();
    assert_eq!(buf, vec![b'a', b'b', 0, 0]);
    assert_eq!(err.message(), "field exceeds 3 bytes");

    let mut uname = kasumi_spoof_uname::zeroed(&abi());
    uname.set_sysname("abc").unwrap();
    assert_eq!(uname.sysname, vec![b'a', b'b', b'c', 0]);
    assert!(uname.set_release("long").is_err());
    assert_eq!(uname.release, vec![0u8; 4]);
}

#[test]
fn paths_with_nul_are_refused() {
    assert!(has_nul_bytes("a\0b"));
    assert!(!has_nul_bytes("/system/bin"));
    assert_eq!(cstring_from_path("/ok").unwrap(), "/ok");
    let err = cstring_from_path("/bad\0").unwrap_err();
    assert_eq!(err.message(), "path contains interior NUL byte: /bad\0");
    match add_rule("/v", "/b\0", 8) {
        Err(KasumiError::InteriorNul { path }) => assert_eq!(path, "/b\0"),
        other => panic!("unexpected {other:?}"),
    }
    let call = add_rule("/v", "/b", 8).unwrap();
    assert_eq!(call.name, "add_rule");
    assert!(matches!(call.request, KasumiRequest::AddRule { ref virtual_path, ref backing_path, file_type: 8 }
        if virtual_path == "/v" && backing_path == "/b"));
}

#[test]
fn simple_requests_carry_their_arguments() {
    let c = set_selinux_fix(true);
    assert_eq!(c.name, "selinux_fix");
    assert!(matches!(c.request, KasumiRequest::SelinuxFix { value: 1 }));
    assert!(matches!(set_selinux_fix(false).request, KasumiRequest::SelinuxFix { value: 0 }));
    assert!(matches!(get_protocol_version().request, KasumiRequest::GetVersion));
    assert!(matches!(list_rules().request, KasumiRequest::ListRules { capacity: 16384 }));
    assert!(matches!(get_hooks().request, KasumiRequest::GetHooks { capacity: 4096 }));
    let r = restore_uname_global(&abi());
    assert_eq!(r.err_context, Some("Kasumi set_uname_global"));
    match r.request {
        KasumiRequest::SetUnameGlobal(u) => assert_eq!(u.machine, vec![0u8; 4]),
        other => panic!("unexpected {other:?}"),
    }
}

#[test]
fn cmdline_must_fit_its_buffer() {
    let c = set_cmdline_str(&abi(), "quiet").unwrap();
    match c.request {
        KasumiRequest::SetCmdline(k) => assert_eq!(k.cmdline, b"quiet\0".to_vec()),
        other => panic!("unexpected {other:?}"),
    }
    match set_cmdline_str(&abi(), "quiet!") {
        Err(KasumiError::FieldTooLong { field, max }) => {
            assert_eq!(field, "Kasumi cmdline");
            assert_eq!(max, 5);
        }
        other => panic!("unexpected {other:?}"),
    }
}

#[test]
fn call_outcomes_become_errors() {
    let call = restore_uname_global(&abi());
    let err = complete_call(&call, 0x4b01, CallOutcome::Failed { errno: 22 }).unwrap_err();
    match &err {
        KasumiError::Ioctl { name, opcode, errno, class } => {
            assert_eq!(name, "set_uname_global");
            assert_eq!(*opcode, 0x4b01);
            assert_eq!(*errno, 22);
            assert_eq!(*class, ErrnoClass::InvalidArgument);
        }
        other => panic!("unexpected {other:?}"),
    }
    assert_eq!(
        err.message(),
        "Kasumi ioctl failed: name=set_uname_global, opcode=0x4b01, errno=22 (invalid payload or protocol mismatch)"
    );
    match complete_call(&call, 1, CallOutcome::Failed { errno: 95 }).unwrap_err() {
        KasumiError::Ioctl { class, .. } => assert_eq!(class, ErrnoClass::Unsupported),
        other => panic!("unexpected {other:?}"),
    }
    match complete_call(&call, 1, CallOutcome::Failed { errno: 5 }).unwrap_err() {
        KasumiError::Ioctl { class, .. } => assert_eq!(class, ErrnoClass::Other),
        other => panic!("unexpected {other:?}"),
    }
    let err = complete_call(&call, 1, CallOutcome::Returned { kernel_err: -2 }).unwrap_err();
    assert_eq!(err.message(), "Kasumi set_uname_global kernel err=-2");
    assert!(complete_call(&call, 1, CallOutcome::Returned { kernel_err: 0 }).is_ok());
    assert!(complete_call(&get_hooks(), 1, CallOutcome::Returned { kernel_err: 7 }).is_ok());
    assert_eq!(errno_hint(ErrnoClass::Other), "kernel call failed");
}

#[test]
fn listing_output_stops_at_nul_and_replaces_bad_bytes() {
    assert_eq!(list_output(b"add /a /b\n\0garbage"), "add /a /b\n");
    assert_eq!(list_output(b"ok"), "ok");
    assert_eq!(list_output(&[b'a', 0xff, b'b']), "a\u{fffd}b");
}

#[test]
fn helper_rules_map_each_entry() {
    let entries = vec![
        HelperEntry { relative: "bin/sh".to_string(), kind: HelperKind::File },
        HelperEntry { relative: "bin/ln".to_string(), kind: HelperKind::Symlink },
        HelperEntry { relative: "bin/gone".to_string(), kind: HelperKind::Whiteout },
    ];
    let r = add_rules_from_directory("/system", "/mod/system", true, &entries);
    assert!(r.error.is_none());
    assert_eq!(r.calls.len(), 3);
    assert!(matches!(r.calls[0].request, KasumiRequest::AddRule { ref virtual_path, ref backing_path, file_type: 8 }
        if virtual_path == "/system/bin/sh" && backing_path == "/mod/system/bin/sh"));
    assert!(matches!(r.calls[1].request, KasumiRequest::AddRule { file_type: 10, .. }));
    assert!(matches!(r.calls[2].request, KasumiRequest::HideRule { ref path } if path == "/system/bin/gone"));

    let r = remove_rules_from_directory("/system", "/mod/system", true, &entries);
    assert_eq!(r.calls.len(), 3);
    assert!(r.calls.iter().all(|c| matches!(c.request, KasumiRequest::DeleteRule { .. })));

    let odd = vec![
        HelperEntry { relative: "a".to_string(), kind: HelperKind::File },
        HelperEntry { relative: "fifo".to_string(), kind: HelperKind::Other },
        HelperEntry { relative: "b".to_string(), kind: HelperKind::File },
    ];
    let r = add_rules_from_directory("/system", "/mod/system", true, &odd);
    assert_eq!(r.calls.len(), 1);
    let err = r.error.unwrap();
    assert_eq!(
        err.message(),
        "unsupported helper entry type for /mod/system/fifo (expected regular file, symlink, or whiteout)"
    );

    let r = add_rules_from_directory("/system", "/mod/file", false, &odd);
    assert!(r.calls.is_empty());
    assert_eq!(r.error.unwrap().message(), "Kasumi helper source is not a directory: /mod/file");
}

#[test]
fn the_last_cmdline_write_that_fits_wins() {
    for len in [3usize, 6, 16] {
        let mut s = kasumi_spoof_cmdline { cmdline: vec![7u8; len], err: 5 };
        let long = "x".repeat(len);
        assert!(s.set_cmdline(&long).is_err());
        assert_eq!(s.cmdline, vec![7u8; len]);
        let a = "x".repeat(len - 2);
        assert!(s.set_cmdline(&a).is_ok());
        assert!(s.set_cmdline("q").is_ok());
        let mut expected = vec![0u8; len];
        expected[0] = b'q';
        assert_eq!(s.cmdline, expected);
        assert_eq!(s.err, 5);
    }
}
