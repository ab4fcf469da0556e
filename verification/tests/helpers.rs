use ssbt::config::{cli_to_config, get_max_size_str, merge_configs, parse_bool_flag,
    split_skip_list, Cli, Config};
use ssbt::naming::{apply_replacements, build_placeholder_values, create_file_name, pad_dec,
    random_string, replace_case_insensitive, NameParts};
use ssbt::paths::{file_name_bytes, find_common_base, prepare_entries};
use ssbt::sink::{get_output_sink, OutSink};
use ssbt::sizes::{encode_size, exceeds_limit, parse_size, total_size, u64_to_dec};

fn cfg_with_output(o: Option<&str>) -> Config {
    let mut c = Config::empty();
    c.output = o.map(|s| s.to_string());
    c
}

#[test]
fn parse_size_accepts_units() {
    assert_eq!(parse_size(b"1024"), Some(1024));
    assert_eq!(parse_size(b"512Mi"), Some(512 * 1024 * 1024));
    assert_eq!(parse_size(b"10Gi"), Some(10 * 1024 * 1024 * 1024));
    assert_eq!(parse_size(b"2Ti"), Some(2 * 1024u64.pow(4)));
    assert_eq!(parse_size(b"3Ki"), Some(3 * 1024));
    assert_eq!(parse_size(b"1MB"), Some(1_000_000));
    assert_eq!(parse_size(b"500kb"), Some(500_000));
    assert_eq!(parse_size(b"7gb"), Some(7_000_000_000));
    assert_eq!(parse_size(b"1tb"), Some(1_000_000_000_000));
    assert_eq!(parse_size(b"2.5GB"), Some(2_500_000_000));
    assert_eq!(parse_size(b"0.5Ki"), Some(512));
    assert_eq!(parse_size(b" 42 "), Some(42));
    assert_eq!(parse_size(b"1.5"), Some(1));
}

#[test]
fn parse_size_rejects_junk() {
    assert_eq!(parse_size(b""), None);
    assert_eq!(parse_size(b"abc"), None);
    assert_eq!(parse_size(b"12x34"), None);
    assert_eq!(parse_size(b"."), None);
    assert_eq!(parse_size(b"1.2.3"), None);
    assert_eq!(parse_size(b"99999999999999999999999999"), None);
}

#[test]
fn encode_size_binary_units() {
    assert_eq!(encode_size(0).as_str(), "0 B");
    assert_eq!(encode_size(1).as_str(), "1 B");
    assert_eq!(encode_size(123).as_str(), "123 B");
    assert_eq!(encode_size(1024).as_str(), "1 KiB");
    assert_eq!(encode_size(1536).as_str(), "1.5 KiB");
    // Not an exact multiple of the unit: one decimal stays, even when the
    // rounded tenth is 0.
    assert_eq!(encode_size(2047).as_str(), "2.0 KiB");
    assert_eq!(encode_size(1075).as_str(), "1.0 KiB");
    // A half-way tenth rounds to even.
    assert_eq!(encode_size(1280).as_str(), "1.2 KiB");
    assert_eq!(encode_size(1024 * 1024).as_str(), "1 MiB");
    assert_eq!(encode_size(2621440).as_str(), "2.5 MiB");
    assert_eq!(encode_size(1024u64.pow(3)).as_str(), "1 GiB");
    assert_eq!(encode_size(1024u64.pow(4)).as_str(), "1 TiB");
    assert_eq!(encode_size(1024u64.pow(5)).as_str(), "1 PiB");
    assert_eq!(encode_size(3 * 1024u64.pow(5) / 2).as_str(), "1.5 PiB");
}

#[test]
fn decimal_rendering() {
    assert_eq!(u64_to_dec(0).as_str(), "0");
    assert_eq!(u64_to_dec(7).as_str(), "7");
    assert_eq!(u64_to_dec(1234567890).as_str(), "1234567890");
    assert_eq!(u64_to_dec(u64::MAX).as_str(), "18446744073709551615");
}

#[test]
fn totals_and_limits() {
    assert_eq!(total_size(&vec![1, 2, 3]), Some(6));
    assert_eq!(total_size(&vec![]), Some(0));
    assert_eq!(total_size(&vec![u64::MAX, 1]), None);
    assert!(!exceeds_limit(10, 0));
    assert!(!exceeds_limit(10, 10));
    assert!(exceeds_limit(11, 10));
}

#[test]
fn bool_flags() {
    assert!(parse_bool_flag(b"true"));
    assert!(parse_bool_flag(b"1"));
    assert!(parse_bool_flag(b"yes"));
    assert!(parse_bool_flag(b"YES"));
    assert!(parse_bool_flag(b"Yes"));
    assert!(!parse_bool_flag(b"no"));
    assert!(!parse_bool_flag(b"TRUE"));
    assert!(!parse_bool_flag(b"0"));
    assert!(!parse_bool_flag(b""));
}

#[test]
fn skip_list_splitting() {
    let parts = split_skip_list(b" *.log , target , ,node_modules");
    let views: Vec<&[u8]> = parts.iter().map(|p| p.as_slice()).collect();
    assert_eq!(views, vec![b"*.log".as_slice(), b"target".as_slice(),
        b"node_modules".as_slice()]);
    assert_eq!(split_skip_list(b"").len(), 0);
    assert_eq!(split_skip_list(b" , ,").len(), 0);
}

#[test]
fn merge_prefers_cli_then_file_then_env() {
    let mut env = Config::empty();
    env.output = Some("env-out".to_string());
    env.format = Some("env-fmt".to_string());
    env.protocol = Some("env-proto".to_string());
    let mut file = Config::empty();
    file.format = Some("file-fmt".to_string());
    file.protocol = Some("file-proto".to_string());
    let mut cli = Config::empty();
    cli.protocol = Some("cli-proto".to_string());
    let merged = merge_configs(env, file, cli);
    assert_eq!(merged.output.as_deref(), Some("env-out"));
    assert_eq!(merged.format.as_deref(), Some("file-fmt"));
    assert_eq!(merged.protocol.as_deref(), Some("cli-proto"));
    assert!(merged.dry.is_none());
}

#[test]
fn cli_lifts_into_config() {
    let cli = Cli {
        output: Some("out.zip".to_string()),
        config: None,
        format: None,
        authentication: None,
        protocol: None,
        dry: true,
        max_size: 9000,
        before: None,
        after: None,
        skip: vec![],
        compress: false,
        generate_yaml_config: false,
        paths: vec!["a".to_string(), "b".to_string()],
    };
    let c = cli_to_config(cli);
    assert_eq!(c.output.as_deref(), Some("out.zip"));
    assert_eq!(c.dry, Some(true));
    assert_eq!(c.max_size, Some(9000));
    assert_eq!(c.compress, Some(false));
    assert!(c.skip.is_none());
    assert_eq!(c.paths.as_ref().unwrap().len(), 2);
}

#[test]
fn max_size_rendering() {
    let mut c = Config::empty();
    assert!(get_max_size_str(&c).is_none());
    c.max_size = Some(0);
    assert!(get_max_size_str(&c).is_none());
    c.max_size = Some(123456);
    assert_eq!(get_max_size_str(&c).unwrap().as_str(), "123456");
}

#[test]
fn output_sink_choice() {
    let s = get_output_sink(&cfg_with_output(Some("http://example.test/upload")));
    match s {
        OutSink::UploadToUrl(u) => assert_eq!(u.as_str(), "http://example.test/upload"),
        OutSink::SaveToFile(_) => panic!("expected an upload sink"),
    }
    let s = get_output_sink(&cfg_with_output(Some("https://example.test/x")));
    assert!(matches!(s, OutSink::UploadToUrl(_)));
    let s = get_output_sink(&cfg_with_output(Some("backups/archive.zip")));
    match s {
        OutSink::SaveToFile(p) => assert_eq!(p.as_str(), "backups/archive.zip"),
        OutSink::UploadToUrl(_) => panic!("expected a file sink"),
    }
    let s = get_output_sink(&cfg_with_output(None));
    match s {
        OutSink::SaveToFile(p) => assert_eq!(p.as_str(), "archive.zip"),
        OutSink::UploadToUrl(_) => panic!("expected the default file sink"),
    }
}

#[test]
fn case_insensitive_replacement() {
    let r = replace_case_insensitive(b"backup_%DATETIME%_x", b"%datetime%", b"2024-01-02");
    assert_eq!(r.as_slice(), b"backup_2024-01-02_x");
    // Non-overlapping, left to right.
    let r = replace_case_insensitive(b"aAaA", b"aa", b"-");
    assert_eq!(r.as_slice(), b"--");
    // An empty pattern changes nothing.
    let r = replace_case_insensitive(b"abc", b"", b"zzz");
    assert_eq!(r.as_slice(), b"abc");
    // No occurrence.
    let r = replace_case_insensitive(b"abc", b"xyz", b"-");
    assert_eq!(r.as_slice(), b"abc");
}

#[test]
fn replacement_table_applies_in_order() {
    let values = vec![
        (b"%date%".to_vec(), b"2024-06-15".to_vec()),
        (b"%rand%".to_vec(), b"q7x2p".to_vec()),
    ];
    let r = apply_replacements(b"b_%DATE%_%rand%.zip".to_vec(), &values);
    assert_eq!(r.as_slice(), b"b_2024-06-15_q7x2p.zip");
}

#[test]
fn output_name_from_directory_uses_default_template() {
    let values = vec![
        (b"%datetime%".to_vec(), b"2024-06-15_10-00-00".to_vec()),
        (b"%rand%".to_vec(), b"ab1cd".to_vec()),
    ];
    let r = create_file_name(b"backups", &values);
    assert_eq!(r.as_slice(), b"backups/backup_2024-06-15_10-00-00_ab1cd.zip");
}

#[test]
fn output_name_from_file_keeps_directory() {
    let values = vec![(b"%rand%".to_vec(), b"zz9".to_vec())];
    let r = create_file_name(b"out/name_%RAND%.zip", &values);
    assert_eq!(r.as_slice(), b"out/name_zz9.zip");
}

#[test]
fn placeholder_table_from_moment() {
    // 2024-06-15 12:30:45 UTC was a Saturday.
    let parts = NameParts {
        utc: (2024, 6, 15, 12, 30, 45),
        utc_weekday: 5,
        millis: 7,
        unix: 1718454645,
        local: (2024, 6, 15, 14, 30, 45),
        rand5: b"ab1cd".to_vec(),
        rand12: b"zzzzzzzzzzzz".to_vec(),
        pwd: b"proj".to_vec(),
    };
    let values = build_placeholder_values(&parts);
    assert_eq!(values.len(), 18);
    let name = create_file_name(b"backups", &values);
    assert_eq!(name.as_slice(), b"backups/backup_2024-06-15_12-30-45_ab1cd.zip");
    let t = apply_replacements(b"%ww% %yy% %ms% %unix% %lh% %pwd%".to_vec(), &values);
    assert_eq!(t.as_slice(), b"Sat 24 007 1718454645 14 proj");
    let t = apply_replacements(b"%date%T%time% #%longrand%".to_vec(), &values);
    assert_eq!(t.as_slice(), b"2024-06-15T12-30-45 #zzzzzzzzzzzz");
    let t = apply_replacements(b"%ltime% d%dd% y%yyyy%".to_vec(), &values);
    assert_eq!(t.as_slice(), b"2024-06-15_14-30-45 d15 y2024");
}

#[test]
fn random_name_part_shape() {
    let r = random_string(12);
    assert_eq!(r.len(), 12);
    for b in r {
        assert!(b.is_ascii_lowercase() || b.is_ascii_digit());
    }
    assert_eq!(random_string(0).len(), 0);
}

#[test]
fn zero_padding() {
    assert_eq!(pad_dec(7, 2).as_slice(), b"07");
    assert_eq!(pad_dec(42, 2).as_slice(), b"42");
    assert_eq!(pad_dec(123, 2).as_slice(), b"123");
    assert_eq!(pad_dec(3, 4).as_slice(), b"0003");
    assert_eq!(pad_dec(0, 3).as_slice(), b"000");
}

#[test]
fn entry_names_relative_to_base() {
    let files = vec![b"/home/u/docs/a.txt".to_vec(), b"/home/u/docs/sub/b.txt".to_vec()];
    let base = b"/home/u/docs".to_vec();
    let entries = prepare_entries(files, Some(&base));
    assert_eq!(entries[0].0.as_slice(), b"a.txt");
    assert_eq!(entries[0].1.as_slice(), b"/home/u/docs/a.txt");
    assert_eq!(entries[1].0.as_slice(), b"sub/b.txt");
}

#[test]
fn base_strips_only_whole_components() {
    // "/a/b" is not an ancestor of "/a/bc": the path keeps its full name.
    let files = vec![b"/a/bc".to_vec(), b"/a/b/c".to_vec()];
    let base = b"/a/b".to_vec();
    let entries = prepare_entries(files, Some(&base));
    assert_eq!(entries[0].0.as_slice(), b"/a/bc");
    assert_eq!(entries[1].0.as_slice(), b"c");
    // A base ending in a separator matches at the boundary too.
    let files = vec![b"/a/x".to_vec()];
    let base = b"/a/".to_vec();
    let entries = prepare_entries(files, Some(&base));
    assert_eq!(entries[0].0.as_slice(), b"x");
}

#[test]
fn entry_names_without_base_use_file_name() {
    let files = vec![b"/x/y/c.dat".to_vec(), b"plain".to_vec()];
    let entries = prepare_entries(files, None);
    assert_eq!(entries[0].0.as_slice(), b"c.dat");
    assert_eq!(entries[1].0.as_slice(), b"plain");
}

#[test]
fn common_base_of_paths() {
    let files = vec![b"/a/b/c.txt".to_vec(), b"/a/b/d/e.txt".to_vec()];
    assert_eq!(find_common_base(&files).unwrap().as_slice(), b"/a/b");
    let files = vec![b"/a/b/c.txt".to_vec(), b"/a/x.txt".to_vec()];
    assert_eq!(find_common_base(&files).unwrap().as_slice(), b"/a");
    let files = vec![b"/only/one.txt".to_vec()];
    assert_eq!(find_common_base(&files).unwrap().as_slice(), b"/only");
    assert!(find_common_base(&Vec::new()).is_none());
}

#[test]
fn file_name_extraction() {
    assert_eq!(file_name_bytes(b"/a/b/c.txt").as_slice(), b"c.txt");
    assert_eq!(file_name_bytes(b"bare").as_slice(), b"bare");
    // Trailing separators are ignored, as a path-aware reader would.
    assert_eq!(file_name_bytes(b"dir/").as_slice(), b"dir");
    assert_eq!(file_name_bytes(b"/a/b/").as_slice(), b"b");
    // No usable name: the whole path stands in.
    assert_eq!(file_name_bytes(b"/").as_slice(), b"/");
    assert_eq!(file_name_bytes(b"a/..").as_slice(), b"a/..");
    assert_eq!(file_name_bytes(b".").as_slice(), b".");
}
