use wurfl::database::LoadError;
use wurfl::{
    Capability, DatabaseSource, DeviceRecord, MatchType, Patch, Wurfl, WurflCacheProvider,
    WurflErrorKind, WurflEnumType, WurflUpdaterFrequency,
};

fn cap(name: &str, value: &str) -> Capability {
    Capability { name: name.to_string(), value: value.to_string() }
}

fn record(id: &str, fall_back: Option<&str>, ua: &str, caps: Vec<Capability>) -> DeviceRecord {
    DeviceRecord {
        id: id.to_string(),
        fall_back: fall_back.map(|f| f.to_string()),
        user_agent: ua.to_string(),
        capabilities: caps,
    }
}

fn source(devices: Vec<DeviceRecord>) -> DatabaseSource {
    DatabaseSource {
        devices,
        important_headers: vec![
            "Device-Stock-UA".to_string(),
            "User-Agent".to_string(),
        ],
        info: "test data".to_string(),
        load_time: "2024-01-01 00:00:00".to_string(),
    }
}

fn sample_devices() -> Vec<DeviceRecord> {
    vec![
        record(
            "generic",
            None,
            "",
            vec![
                cap("brand_name", ""),
                cap("model_name", ""),
                cap("is_wireless_device", "false"),
                cap("is_tablet", "false"),
                cap("pointing_method", ""),
            ],
        ),
        record(
            "android_generic_ver1",
            Some("generic"),
            "Mozilla/5.0 (Linux; Android",
            vec![cap("brand_name", "Generic"), cap("is_wireless_device", "true"), cap("pointing_method", "touchscreen")],
        ),
        record(
            "iphone_ver1",
            Some("generic"),
            "Mozilla/5.0 (iPhone; CPU iPhone OS 10_0 like Mac OS X)",
            vec![
                cap("brand_name", "Apple"),
                cap("model_name", "iPhone"),
                cap("is_wireless_device", "true"),
                cap("pointing_method", "touchscreen"),
            ],
        ),
        record(
            "iphone_ver1_sub",
            Some("iphone_ver1"),
            "Mozilla/5.0 (iPhone; CPU iPhone OS 10_1 like Mac OS X)",
            vec![cap("model_name", "iPhone 7")],
        ),
        record(
            "ipad_ver1",
            Some("iphone_ver1"),
            "Tablet/1.0 (iPad)",
            vec![cap("is_tablet", "true"), cap("model_name", "iPad")],
        ),
        record("opera_mini", Some("generic"), "Opera/9.80 (J2ME/MIDP; Opera Mini/9.80)", vec![]),
    ]
}

fn engine(provider: WurflCacheProvider, size: Option<&str>) -> Wurfl {
    match Wurfl::new(&source(sample_devices()), None, None, provider, size) {
        Ok(w) => w,
        Err(e) => panic!("engine not created: {}", e.to_string()),
    }
}

fn headers(pairs: &[(&str, &[u8])]) -> Vec<(String, Vec<u8>)> {
    pairs.iter().map(|(n, v)| (n.to_string(), v.to_vec())).collect()
}

#[test]
fn concrete_scenario_generic_catchall() {
    let devices = vec![
        record("generic", None, "", vec![]),
        record("android_generic_ver1", Some("generic"), "Android generic", vec![cap("brand_name", "Generic")]),
        record("iphone_ver1", Some("generic"), "iPhone one", vec![cap("brand_name", "Apple")]),
    ];
    let mut w = Wurfl::new(&source(devices), None, None, WurflCacheProvider::LRU, None).ok().unwrap();
    let d = w.lookup_useragent("Totally/Unknown Agent").ok().unwrap();
    assert_eq!(d.get_device_id(), "generic");
    assert_eq!(d.get_match_type(), MatchType::WurflMatchTypeCatchall);
    let iphone = w.lookup_device_id("iphone_ver1").ok().unwrap();
    assert_eq!(iphone.get_capability("brand_name"), Some("Apple"));
    assert_eq!(iphone.get_capability("undefined_cap"), None);
}

#[test]
fn every_id_looks_up_to_itself() {
    let w = engine(WurflCacheProvider::NoCache, None);
    let ids = w.get_all_device_ids();
    assert_eq!(ids.len(), 6);
    for id in ids.iter() {
        let d = w.lookup_device_id(id).ok().unwrap();
        assert_eq!(d.get_device_id(), id.as_str());
        assert_eq!(d.get_match_type(), MatchType::WurflMatchTypeExact);
    }
}

#[test]
fn unknown_id_is_not_found() {
    let w = engine(WurflCacheProvider::NoCache, None);
    match w.lookup_device_id("no_such_device") {
        Err(e) => assert_eq!(e.kind, WurflErrorKind::NotFound),
        Ok(_) => panic!("found a device that does not exist"),
    }
}

#[test]
fn header_lookups_never_report_none() {
    let mut w = engine(WurflCacheProvider::LRU, Some("10"));
    let cases: Vec<Vec<(String, Vec<u8>)>> = vec![
        headers(&[]),
        headers(&[("Accept", b"text/html")]),
        headers(&[("User-Agent", b"\xff\xfe")]),
        headers(&[("User-Agent", b"Mozilla/5.0 (iPhone; CPU iPhone OS 10_0 like Mac OS X)")]),
        headers(&[("user-agent", b"curl/7.1")]),
    ];
    for h in cases.iter() {
        let d = w.lookup_with_headers(h).ok().unwrap();
        assert_ne!(d.get_match_type(), MatchType::WurflMatchTypeNone);
    }
}

#[test]
fn header_order_does_not_matter() {
    let h1 = headers(&[
        ("User-Agent", b"Opera/9.80 (J2ME/MIDP; Opera Mini/9.80)"),
        ("Device-Stock-UA", b"Mozilla/5.0 (Linux; Android 9; Pixel)"),
        ("Accept", b"*/*"),
    ]);
    let h2 = headers(&[
        ("Accept", b"*/*"),
        ("Device-Stock-UA", b"Mozilla/5.0 (Linux; Android 9; Pixel)"),
        ("User-Agent", b"Opera/9.80 (J2ME/MIDP; Opera Mini/9.80)"),
    ]);
    let mut w1 = engine(WurflCacheProvider::NoCache, None);
    let mut w2 = engine(WurflCacheProvider::NoCache, None);
    let d1 = w1.lookup_with_headers(&h1).ok().unwrap();
    let d2 = w2.lookup_with_headers(&h2).ok().unwrap();
    assert_eq!(d1.get_device_id(), d2.get_device_id());
    assert_eq!(d1.get_match_type(), d2.get_match_type());
    assert_eq!(d1.get_normalized_user_agent(), d2.get_normalized_user_agent());
    assert_eq!(d1.get_normalized_user_agent(), "Mozilla/5.0 (Linux; Android 9; Pixel)");
    assert_eq!(d1.get_device_id(), "android_generic_ver1");
}

#[test]
fn header_names_are_case_insensitive() {
    let mut w = engine(WurflCacheProvider::NoCache, None);
    let h = headers(&[("USER-AGENT", b"Opera/9.80 (J2ME/MIDP; Opera Mini/9.80)")]);
    let d = w.lookup_with_headers(&h).ok().unwrap();
    assert_eq!(d.get_device_id(), "opera_mini");
    assert_eq!(d.get_match_type(), MatchType::WurflMatchTypeExact);
}

#[test]
fn non_utf8_header_is_skipped() {
    let mut w = engine(WurflCacheProvider::NoCache, None);
    let h = headers(&[
        ("Device-Stock-UA", b"\xc3\x28 broken"),
        ("User-Agent", b"Opera/9.80 (J2ME/MIDP; Opera Mini/9.80)"),
    ]);
    let d = w.lookup_with_headers(&h).ok().unwrap();
    assert_eq!(d.get_device_id(), "opera_mini");
    assert_eq!(d.get_original_user_agent(), "Opera/9.80 (J2ME/MIDP; Opera Mini/9.80)");
}

#[test]
fn repeated_lookup_is_cached() {
    let mut w = engine(WurflCacheProvider::LRU, Some("4"));
    let ua = "Mozilla/5.0 (iPhone; CPU iPhone OS 10_0 like Mac OS X)";
    let first = w.lookup_useragent(ua).ok().unwrap();
    assert_eq!(first.get_match_type(), MatchType::WurflMatchTypeExact);
    let second = w.lookup_useragent(ua).ok().unwrap();
    assert_eq!(second.get_match_type(), MatchType::WurflMatchTypeCached);
    assert_eq!(second.get_device_id(), first.get_device_id());
}

#[test]
fn no_cache_never_hits() {
    let mut w = engine(WurflCacheProvider::NoCache, Some("4"));
    let ua = "Opera/9.80 (J2ME/MIDP; Opera Mini/9.80)";
    w.lookup_useragent(ua).ok().unwrap();
    let again = w.lookup_useragent(ua).ok().unwrap();
    assert_eq!(again.get_match_type(), MatchType::WurflMatchTypeExact);
}

#[test]
fn lru_evicts_least_recently_used() {
    let mut w = engine(WurflCacheProvider::LRU, Some("2"));
    w.lookup_useragent("a/1").ok().unwrap();
    w.lookup_useragent("b/1").ok().unwrap();
    w.lookup_useragent("c/1").ok().unwrap();
    let b = w.lookup_useragent("b/1").ok().unwrap();
    assert_eq!(b.get_match_type(), MatchType::WurflMatchTypeCached);
    let a = w.lookup_useragent("a/1").ok().unwrap();
    assert_eq!(a.get_match_type(), MatchType::WurflMatchTypeCatchall);
}

#[test]
fn lru_cache_keeps_capacity() {
    let mut c = wurfl::cache::LookupCache::new(3);
    c.insert("k1", 1);
    c.insert("k2", 2);
    c.insert("k3", 3);
    assert_eq!(c.len(), 3);
    c.insert("k4", 4);
    assert_eq!(c.len(), 3);
    assert_eq!(c.get("k1"), None);
    assert_eq!(c.get("k2"), Some(2));
    assert_eq!(c.get("k4"), Some(4));
    c.insert("k5", 5);
    assert_eq!(c.get("k3"), None);
    assert_eq!(c.get("k2"), Some(2));
    assert_eq!(c.capacity(), 3);
    c.clear();
    assert_eq!(c.len(), 0);
}

#[test]
fn capability_is_inherited() {
    let w = engine(WurflCacheProvider::NoCache, None);
    let sub = w.lookup_device_id("iphone_ver1_sub").ok().unwrap();
    assert_eq!(sub.get_capability("model_name"), Some("iPhone 7"));
    assert_eq!(sub.get_capability("brand_name"), Some("Apple"));
    assert_eq!(sub.get_capability("is_tablet"), Some("false"));
    assert!(!sub.is_root());
    assert_eq!(sub.get_root_ID(), "generic");
    let root = w.lookup_device_id("generic").ok().unwrap();
    assert!(root.is_root());
}

#[test]
fn device_keeps_its_snapshot_after_update() {
    let mut w = engine(WurflCacheProvider::LRU, None);
    let before = w.lookup_device_id("iphone_ver1").ok().unwrap();
    assert!(w.set_updater_data_url("https://example.com/data.zip").is_none());
    let fresh = vec![
        record("generic", None, "", vec![]),
        record("iphone_ver1", Some("generic"), "iPhone two", vec![cap("brand_name", "Apple Inc.")]),
    ];
    assert!(w.updater_runonce(&source(fresh)).is_none());
    assert_eq!(before.get_capability("brand_name"), Some("Apple"));
    assert_eq!(before.get_capability("model_name"), Some("iPhone"));
    let after = w.lookup_device_id("iphone_ver1").ok().unwrap();
    assert_eq!(after.get_capability("brand_name"), Some("Apple Inc."));
    assert_eq!(after.get_capability("model_name"), None);
    assert_eq!(w.get_all_device_ids().len(), 2);
}

#[test]
fn runonce_needs_a_data_url() {
    let mut w = engine(WurflCacheProvider::NoCache, None);
    let e = w.updater_runonce(&source(sample_devices())).unwrap();
    assert_eq!(e.kind, WurflErrorKind::Updater);
    assert_eq!(w.updater_start().unwrap().kind, WurflErrorKind::Updater);
}

#[test]
fn failed_update_keeps_old_snapshot() {
    let mut w = engine(WurflCacheProvider::NoCache, None);
    assert!(w.set_updater_data_url("https://example.com/data.zip").is_none());
    let e = w.updater_runonce(&source(vec![])).unwrap();
    assert_eq!(e.kind, WurflErrorKind::Load(LoadError::EmptyDatabase));
    assert_eq!(w.get_all_device_ids().len(), 6);
}

#[test]
fn match_types_by_strategy() {
    let mut w = engine(WurflCacheProvider::NoCache, None);
    let exact = w.lookup_useragent("Mozilla/5.0 (iPhone; CPU iPhone OS 10_0 like Mac OS X)").ok().unwrap();
    assert_eq!(exact.get_match_type(), MatchType::WurflMatchTypeExact);
    assert_eq!(exact.get_device_id(), "iphone_ver1");
    let conclusive = w.lookup_useragent("Mozilla/5.0 (Linux; Android 12; Pixel 6)").ok().unwrap();
    assert_eq!(conclusive.get_match_type(), MatchType::WurflMatchTypeConclusive);
    assert_eq!(conclusive.get_device_id(), "android_generic_ver1");
    let recovery = w.lookup_useragent("Opera/12.0 (Windows NT)").ok().unwrap();
    assert_eq!(recovery.get_match_type(), MatchType::WurflMatchTypeRecovery);
    assert_eq!(recovery.get_device_id(), "opera_mini");
    assert_eq!(recovery.get_user_agent(), "Opera/9.80 (J2ME/MIDP; Opera Mini/9.80)");
    let catchall = w.lookup_useragent("Zzz").ok().unwrap();
    assert_eq!(catchall.get_match_type(), MatchType::WurflMatchTypeCatchall);
    assert_eq!(catchall.get_device_id(), "generic");
    let empty = w.lookup_useragent("").ok().unwrap();
    assert_eq!(empty.get_match_type(), MatchType::WurflMatchTypeExact);
    assert_eq!(empty.get_device_id(), "generic");
}

#[test]
fn conclusive_prefers_longest_signature() {
    let devices = vec![
        record("generic", None, "", vec![]),
        record("short", Some("generic"), "Agent", vec![]),
        record("long", Some("generic"), "Agent/2.0 (X11", vec![]),
    ];
    let mut w = Wurfl::new(&source(devices), None, None, WurflCacheProvider::NoCache, None).ok().unwrap();
    let d = w.lookup_useragent("Agent/2.0 (X11; Linux)").ok().unwrap();
    assert_eq!(d.get_device_id(), "long");
    assert_eq!(d.get_match_type(), MatchType::WurflMatchTypeConclusive);
}

#[test]
fn virtual_capabilities_are_derived() {
    let w = engine(WurflCacheProvider::NoCache, None);
    let iphone = w.lookup_device_id("iphone_ver1").ok().unwrap();
    assert_eq!(iphone.get_virtual_capability("is_mobile"), Some("true".to_string()));
    assert_eq!(iphone.get_virtual_capability("is_smartphone"), Some("true".to_string()));
    assert_eq!(iphone.get_virtual_capability("complete_device_name"), Some("Apple iPhone".to_string()));
    assert_eq!(iphone.get_virtual_capability("no_such_vcap"), None);
    let ipad = w.lookup_device_id("ipad_ver1").ok().unwrap();
    assert_eq!(ipad.get_virtual_capability("is_smartphone"), Some("false".to_string()));
    assert_eq!(ipad.get_virtual_capability("complete_device_name"), Some("Apple iPad".to_string()));
    let root = w.lookup_device_id("generic").ok().unwrap();
    assert_eq!(root.get_virtual_capability("is_mobile"), Some("false".to_string()));
    assert_eq!(w.get_all_vcaps(), vec!["is_mobile", "is_smartphone", "complete_device_name"]);
    assert!(w.has_virtual_capability("is_smartphone"));
    assert!(!w.has_virtual_capability("is_robot"));
}

#[test]
fn batch_capabilities() {
    let w = engine(WurflCacheProvider::NoCache, None);
    let d = w.lookup_device_id("iphone_ver1_sub").ok().unwrap();
    let caps = d.get_capabilities(&["brand_name", "missing", "model_name"]).ok().unwrap();
    let pairs: Vec<(String, String)> = caps.into_iter().map(|c| (c.name, c.value)).collect();
    assert_eq!(
        pairs,
        vec![
            ("brand_name".to_string(), "Apple".to_string()),
            ("model_name".to_string(), "iPhone 7".to_string()),
        ]
    );
    let odd = d.get_capabilities(&["brand_name", "bad\0name"]).ok().unwrap();
    assert_eq!(odd.len(), 1);
    let v = d.get_virtual_capabilities(&["complete_device_name", "unknown"]).ok().unwrap();
    assert_eq!(v.len(), 1);
    assert_eq!(v[0].value, "Apple iPhone 7");
    assert_eq!(d.get_virtual_capabilities(&["\0"]).ok().unwrap().len(), 0);
}

#[test]
fn patches_and_filter_apply() {
    let patches = vec![
        Patch { device_id: "iphone_ver1".to_string(), capabilities: vec![cap("brand_name", "Apple (patched)")] },
        Patch { device_id: "iphone_ver1".to_string(), capabilities: vec![cap("brand_name", "Apple (last)")] },
    ];
    let filter = vec!["brand_name".to_string()];
    let w = Wurfl::new(&source(sample_devices()), Some(&patches), Some(&filter), WurflCacheProvider::NoCache, None)
        .ok()
        .unwrap();
    let d = w.lookup_device_id("iphone_ver1").ok().unwrap();
    assert_eq!(d.get_capability("brand_name"), Some("Apple (last)"));
    assert_eq!(d.get_capability("model_name"), None);
    assert_eq!(w.get_all_caps(), vec!["brand_name"]);
    assert!(w.has_capability("brand_name"));
    assert!(!w.has_capability("model_name"));
}

#[test]
fn all_caps_listed_once() {
    let w = engine(WurflCacheProvider::NoCache, None);
    let caps = w.get_all_caps();
    assert_eq!(caps, vec!["brand_name", "model_name", "is_wireless_device", "is_tablet", "pointing_method"]);
    assert_eq!(w.enumerate(WurflEnumType::WurflEnumStaticCapabilities), caps);
    assert_eq!(w.enumerate(WurflEnumType::WurflEnumWurflID).len(), 6);
    assert_eq!(w.enumerate(WurflEnumType::WurflEnumVirtualCapabilities).len(), 3);
}

#[test]
fn load_errors() {
    let kind = |devices: Vec<DeviceRecord>, patches: Vec<Patch>| {
        match Wurfl::new(&source(devices), Some(&patches), None, WurflCacheProvider::NoCache, None) {
            Err(e) => e.kind,
            Ok(_) => panic!("loaded bad data"),
        }
    };
    assert_eq!(kind(vec![], vec![]), WurflErrorKind::Load(LoadError::EmptyDatabase));
    assert_eq!(
        kind(vec![record("a", None, "", vec![]), record("a", Some("a"), "", vec![])], vec![]),
        WurflErrorKind::Load(LoadError::DuplicateDeviceId)
    );
    assert_eq!(
        kind(vec![record("a", None, "", vec![]), record("b", Some("zzz"), "", vec![])], vec![]),
        WurflErrorKind::Load(LoadError::MissingAncestor)
    );
    assert_eq!(
        kind(vec![record("a", None, "", vec![]), record("b", None, "", vec![])], vec![]),
        WurflErrorKind::Load(LoadError::MultipleRoots)
    );
    assert_eq!(
        kind(
            vec![record("a", None, "", vec![]), record("b", Some("c"), "", vec![]), record("c", Some("b"), "", vec![])],
            vec![]
        ),
        WurflErrorKind::Load(LoadError::CyclicHierarchy)
    );
    assert_eq!(
        kind(vec![record("a", Some("a"), "", vec![])], vec![]),
        WurflErrorKind::Load(LoadError::CyclicHierarchy)
    );
    assert_eq!(
        kind(
            vec![record("a", None, "", vec![])],
            vec![Patch { device_id: "nobody".to_string(), capabilities: vec![] }]
        ),
        WurflErrorKind::Load(LoadError::UnknownPatchTarget)
    );
}

#[test]
fn cache_size_configuration() {
    let make = |size: Option<&str>| Wurfl::new(&source(sample_devices()), None, None, WurflCacheProvider::LRU, size);
    for bad in ["", "abc", "0", "12x", "-5", "99999999999999999999999999"] {
        match make(Some(bad)) {
            Err(e) => assert_eq!(e.kind, WurflErrorKind::InvalidCacheConfig),
            Ok(_) => panic!("accepted cache size {:?}", bad),
        }
    }
    assert!(make(Some("100000")).is_ok());
    assert!(make(None).is_ok());
    assert_eq!(wurfl::wurfl::parse_cache_size("0042"), Some(42));
    assert_eq!(wurfl::wurfl::parse_cache_size("18446744073709551615"), Some(usize::MAX));
    assert_eq!(wurfl::wurfl::parse_cache_size("18446744073709551616"), None);
    assert_eq!(wurfl::to_cache_provider(WurflCacheProvider::NoCache, 7), 0);
    assert_eq!(wurfl::to_cache_provider(WurflCacheProvider::LRU, 7), 7);
    assert_eq!(wurfl::to_wurfl_enum_type(WurflEnumType::WurflEnumWurflID), 2);
}

#[test]
fn shutdown_is_terminal() {
    let mut w = engine(WurflCacheProvider::LRU, None);
    w.shutdown();
    w.shutdown();
    assert!(w.is_shut_down());
    assert_eq!(w.lookup_useragent("x").err().unwrap().kind, WurflErrorKind::Terminal);
    assert_eq!(w.lookup_with_headers(&headers(&[])).err().unwrap().kind, WurflErrorKind::Terminal);
    assert_eq!(w.lookup_device_id("generic").err().unwrap().kind, WurflErrorKind::Terminal);
    assert_eq!(w.updater_stop().unwrap().kind, WurflErrorKind::Terminal);
}

#[test]
fn updater_settings() {
    let mut w = engine(WurflCacheProvider::NoCache, None);
    assert_eq!(w.set_updater_data_url("").unwrap().kind, WurflErrorKind::Updater);
    assert!(w.set_updater_data_url("https://example.com/wurfl.zip").is_none());
    assert!(w.set_updater_data_frequency(WurflUpdaterFrequency::WurflUpdaterFrequencyWeekly).is_none());
    assert_eq!(w.updater_period_hours(), 168);
    assert!(w.set_updater_data_url_timeout(0, -1).is_none());
    assert_eq!(w.set_updater_data_url_timeout(-2, 10).unwrap().kind, WurflErrorKind::Updater);
    assert!(w.set_updater_log_path("/tmp/updater.log").is_none());
    assert_eq!(w.set_updater_log_path("").unwrap().kind, WurflErrorKind::Updater);
    assert!(w.updater_start().is_none());
    assert!(w.is_updater_running());
    assert!(w.updater_stop().is_none());
    assert!(!w.is_updater_running());
}

#[test]
fn metadata_accessors() {
    let w = engine(WurflCacheProvider::NoCache, None);
    assert_eq!(w.get_api_version(), "1.0.0");
    assert_eq!(w.get_info(), "test data");
    assert_eq!(w.get_last_load_time(), "2024-01-01 00:00:00");
    assert_eq!(w.get_important_headers(), &vec!["Device-Stock-UA".to_string(), "User-Agent".to_string()]);
}

#[test]
fn lookup_by_id_with_headers_reports_key() {
    let w = engine(WurflCacheProvider::NoCache, None);
    let h = headers(&[("user-agent", b"Custom Agent")]);
    let d = w.lookup_device_id_with_headers("opera_mini", &h).ok().unwrap();
    assert_eq!(d.get_device_id(), "opera_mini");
    assert_eq!(d.get_original_user_agent(), "Custom Agent");
    assert!(w.lookup_device_id_with_headers("nobody", &h).is_err());
}

#[test]
fn update_keeps_filter_and_patches() {
    let patches = vec![Patch {
        device_id: "iphone_ver1".to_string(),
        capabilities: vec![cap("brand_name", "Apple (patched)")],
    }];
    let filter = vec!["brand_name".to_string(), "is_tablet".to_string()];
    let mut w = Wurfl::new(&source(sample_devices()), Some(&patches), Some(&filter), WurflCacheProvider::LRU, None)
        .ok()
        .unwrap();
    assert!(w.set_updater_data_url("https://example.com/data.zip").is_none());
    let fresh = vec![
        record("generic", None, "", vec![cap("is_tablet", "false")]),
        record("iphone_ver1", Some("generic"), "iPhone two", vec![cap("brand_name", "Apple"), cap("model_name", "X")]),
    ];
    assert!(w.updater_runonce(&source(fresh)).is_none());
    let d = w.lookup_device_id("iphone_ver1").ok().unwrap();
    assert_eq!(d.get_capability("model_name"), None);
    assert_eq!(d.get_capability("brand_name"), Some("Apple (patched)"));
    assert_eq!(w.get_all_caps(), vec!["is_tablet", "brand_name"]);
}

#[test]
fn update_refused_when_patch_target_is_gone() {
    let patches = vec![Patch { device_id: "opera_mini".to_string(), capabilities: vec![] }];
    let mut w = Wurfl::new(&source(sample_devices()), Some(&patches), None, WurflCacheProvider::NoCache, None)
        .ok()
        .unwrap();
    assert!(w.set_updater_data_url("https://example.com/data.zip").is_none());
    let e = w.updater_runonce(&source(vec![record("generic", None, "", vec![])])).unwrap();
    assert_eq!(e.kind, WurflErrorKind::Load(LoadError::UnknownPatchTarget));
    assert!(!e.msg.is_empty());
    assert_eq!(w.get_all_device_ids().len(), 6);
}

#[test]
fn cache_size_error_has_message() {
    match Wurfl::new(&source(sample_devices()), None, None, WurflCacheProvider::LRU, Some("abc")) {
        Err(e) => assert!(!e.msg.is_empty()),
        Ok(_) => panic!("accepted a bad cache size"),
    }
}

#[test]
fn error_message_is_readable() {
    match Wurfl::new(&source(vec![]), None, None, WurflCacheProvider::NoCache, None) {
        Err(e) => assert!(!e.to_string().is_empty()),
        Ok(_) => panic!("loaded an empty database"),
    }
}
