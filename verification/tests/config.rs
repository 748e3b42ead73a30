use rfw::config::{parse_forwarder, validate_no_duplicates, ForwarderConfig};
use rfw::settings::{RuntimeKnobs, Settings};
use rfw::sources::{
    load_env_forwarders, load_forwarders, load_settings, load_settings_from_file,
    require_forwarders, CliArgs, ConfigFile, ConfigRead, LoadError,
};

fn forwarder(local_host: &str, local_port: u16, remote_host: &str, remote_port: u16) -> ForwarderConfig {
    ForwarderConfig {
        local_host: local_host.to_string(),
        local_port,
        remote_host: remote_host.to_string(),
        remote_port,
    }
}

fn cli(forwarders: &[&str]) -> CliArgs {
    CliArgs {
        config_file: None,
        metrics_addr: None,
        report_interval_secs: None,
        sample_interval_secs: None,
        buffer_bytes: None,
        socket_buffer_bytes: None,
        use_splice: false,
        forwarders: forwarders.iter().map(|s| s.to_string()).collect(),
    }
}

fn with_file(mut args: CliArgs) -> CliArgs {
    args.config_file = Some(std::path::PathBuf::from("forwarders.yml"));
    args
}

fn vars(list: &[(&str, &str)]) -> Vec<(String, String)> {
    list.iter()
        .map(|(k, v)| (k.to_string(), v.to_string()))
        .collect()
}

fn no_file() -> Option<ConfigRead<String>> {
    None
}

fn parsed(forwarders: Vec<ForwarderConfig>, settings: Settings) -> ConfigRead<String> {
    ConfigRead::Parsed(ConfigFile {
        forwarders,
        settings,
    })
}

fn file_settings() -> Settings {
    Settings {
        metrics_addr: Some("127.0.0.1:9090".to_string()),
        report_interval_secs: 7,
        sample_interval_secs: 3,
        buffer_bytes: 4096,
        socket_buffer_bytes: Some(8192),
        use_splice: true,
    }
}

#[test]
fn test_settings_defaults() {
    let yaml = "forwarders:\n  - {local_host: a, local_port: 1, remote_host: b, remote_port: 2}\n";
    let document: serde_yaml::Value = serde_yaml::from_str(yaml).unwrap();
    let first = &document["forwarders"][0];
    let cf = ConfigFile {
        forwarders: vec![forwarder(
            first["local_host"].as_str().unwrap(),
            first["local_port"].as_u64().unwrap() as u16,
            first["remote_host"].as_str().unwrap(),
            first["remote_port"].as_u64().unwrap() as u16,
        )],
        settings: match document.get("settings") {
            None => Settings::default(),
            Some(_) => panic!("the document has no settings"),
        },
    };
    assert_eq!(cf.forwarders[0].label(), "a:1->b:2");
    assert_eq!(cf.settings.report_interval_secs, 60);
    assert_eq!(cf.settings.sample_interval_secs, 1);
    assert_eq!(cf.settings.buffer_bytes, 65536);
    assert!(cf.settings.metrics_addr.is_none());
    assert!(cf.settings.socket_buffer_bytes.is_none());
    assert!(!cf.settings.use_splice);
}

#[test]
fn test_cli_overrides_settings() {
    let matches = clap::Command::new("rfw")
        .arg(clap::Arg::new("report").long("report-interval"))
        .arg(clap::Arg::new("buffer").long("buffer-bytes"))
        .arg(clap::Arg::new("forwarders").num_args(0..))
        .get_matches_from([
            "rfw",
            "--report-interval",
            "5",
            "--buffer-bytes",
            "1234",
            "127.0.0.1:1:b:2",
        ]);
    let mut args = cli(&[]);
    args.report_interval_secs = matches
        .get_one::<String>("report")
        .map(|s| s.parse().unwrap());
    args.buffer_bytes = matches
        .get_one::<String>("buffer")
        .map(|s| s.parse().unwrap());
    args.forwarders = matches
        .get_many::<String>("forwarders")
        .unwrap()
        .cloned()
        .collect();
    let s = load_settings(&args, no_file()).unwrap();
    assert_eq!(s.report_interval_secs, 5);
    assert_eq!(s.buffer_bytes, 1234);
    assert_eq!(s.sample_interval_secs, 1); // untouched -> default
    assert!(s.metrics_addr.is_none());
}

#[test]
fn test_parse_forwarder_ok() {
    let f = parse_forwarder("localhost:8080:172.16.0.5:80").unwrap();
    assert_eq!(f.local_host, "localhost");
    assert_eq!(f.local_port, 8080);
    assert_eq!(f.remote_host, "172.16.0.5");
    assert_eq!(f.remote_port, 80);
}

#[test]
fn test_parse_forwarder_ipv6() {
    let result = parse_forwarder(":::8080:::80");
    assert!(result.is_err());
}

#[test]
fn test_parse_forwarder_invalid_parts() {
    assert!(parse_forwarder("a:b:c").is_err());
    assert!(parse_forwarder("a:b:c:d:e").is_err());
}

#[test]
fn test_parse_forwarder_invalid_port() {
    assert!(parse_forwarder("localhost:bad:remote:80").is_err());
}

#[test]
fn parse_errors_say_what_is_wrong() {
    assert_eq!(
        parse_forwarder("a:b:c").unwrap_err(),
        "Invalid forwarder format 'a:b:c': expected local_host:local_port:remote_host:remote_port"
    );
    for bad in ["", "+", "-1", "x", "65536", "99999999999999999999", "1x", "99999x", " 1"] {
        let reason = bad.parse::<u16>().unwrap_err();
        assert_eq!(
            parse_forwarder(&format!("h:{bad}:r:80")).unwrap_err(),
            format!("Invalid local port '{bad}': {reason}")
        );
        assert_eq!(
            parse_forwarder(&format!("h:80:r:{bad}")).unwrap_err(),
            format!("Invalid remote port '{bad}': {reason}")
        );
    }
}

#[test]
fn parsed_forwarders_have_plain_hosts_and_any_port() {
    let f = parse_forwarder(":+0::065535").unwrap();
    assert_eq!(f.local_host, "");
    assert_eq!(f.local_port, 0);
    assert_eq!(f.remote_host, "");
    assert_eq!(f.remote_port, 65535);
    let text = "db.lan:3306:prod.example.com:3307";
    let f = parse_forwarder(text).unwrap();
    assert_eq!(
        format!("{}:{}:{}", f.local_addr(), f.remote_host, f.remote_port),
        text
    );
}

#[test]
fn test_validate_duplicates() {
    let f = vec![
        forwarder("0.0.0.0", 8080, "a.com", 80),
        forwarder("0.0.0.0", 8080, "b.com", 80),
    ];
    assert!(validate_no_duplicates(&f).is_err());
}

#[test]
fn the_first_duplicate_is_named() {
    let f = vec![
        forwarder("a", 1, "x", 1),
        forwarder("b", 2, "x", 1),
        forwarder("c", 3, "x", 1),
        forwarder("b", 2, "y", 1),
        forwarder("a", 1, "y", 1),
    ];
    assert_eq!(
        validate_no_duplicates(&f).unwrap_err(),
        "Duplicate local address 'b:2'. Each forwarder needs a unique local endpoint."
    );
    assert!(validate_no_duplicates(&f[..3]).is_ok());
    assert!(validate_no_duplicates(&[]).is_ok());
}

#[test]
fn test_label() {
    let f = forwarder("127.0.0.1", 9090, "example.com", 443);
    assert_eq!(f.label(), "127.0.0.1:9090->example.com:443");
    assert_eq!(f.local_addr(), "127.0.0.1:9090");
}

#[test]
fn test_load_forwarders_env_overrides_cli_with_sparse_indices() {
    let environment = vars(&[
        ("RFW_FORWARDER_3", "127.0.0.1:9003:three.example:80"),
        ("RFW_FORWARDER_1", "127.0.0.1:9001:one.example:80"),
    ]);
    let args = cli(&["127.0.0.1:8000:cli.example:80"]);
    let forwarders =
        load_forwarders(&args, no_file(), &environment).expect("env forwarders should load");
    assert_eq!(forwarders.len(), 2);
    assert_eq!(forwarders[0].local_port, 9001);
    assert_eq!(forwarders[1].local_port, 9003);
}

#[test]
fn test_load_forwarders_validates_duplicates_from_env() {
    let environment = vars(&[
        ("RFW_FORWARDER_1", "0.0.0.0:8080:first.example:80"),
        ("RFW_FORWARDER_2", "0.0.0.0:8080:second.example:443"),
    ]);
    let error = load_forwarders(&cli(&[]), no_file(), &environment)
        .expect_err("duplicate env forwarders must fail");
    match error {
        LoadError::Duplicate(text) => {
            assert!(text.contains("Duplicate local address '0.0.0.0:8080'"))
        }
        _ => panic!("the error is about duplicates"),
    }
}

#[test]
fn environment_variables_are_read_by_number() {
    let env = load_env_forwarders(&vars(&[
        ("PATH", "/bin"),
        ("RFW_FORWARDER_10", "a:10:r:1"),
        ("RFW_FORWARDER_", "a:99:r:1"),
        ("RFW_FORWARDER_x", "a:98:r:1"),
        ("RFW_FORWARDER_2", "a:2:r:1"),
        ("XRFW_FORWARDER_3", "a:97:r:1"),
        ("RFW_FORWARDER_+7", "a:7:r:1"),
        ("RFW_FORWARDER_5", "nonsense"),
        ("RFW_FORWARDER_02", "a:3:r:1"),
        ("RFW_FORWARDER_18446744073709551616", "a:96:r:1"),
    ]));
    let ports: Vec<u16> = env.forwarders.iter().map(|f| f.local_port).collect();
    assert_eq!(ports, vec![2, 3, 7, 10]);
    assert_eq!(env.ignored.len(), 1);
    assert_eq!(env.ignored[0].0, "RFW_FORWARDER_5");
    assert_eq!(
        env.ignored[0].1,
        parse_forwarder("nonsense").unwrap_err()
    );
}

#[test]
fn the_command_line_beats_the_file_and_the_environment_beats_both() {
    let file = || Some(parsed(vec![forwarder("file", 1, "r", 1)], Settings::default()));
    let hosts = |list: Vec<ForwarderConfig>| -> Vec<String> {
        list.into_iter().map(|f| f.local_host).collect()
    };
    let environment = vars(&[("RFW_FORWARDER_1", "env:1:r:1")]);
    let broken = vars(&[("RFW_FORWARDER_1", "env")]);
    let named = with_file(cli(&["cli:1:r:1"]));
    let bare = with_file(cli(&[]));
    assert_eq!(hosts(load_forwarders(&named, file(), &environment).unwrap()), ["env"]);
    assert_eq!(hosts(load_forwarders(&named, file(), &broken).unwrap()), ["cli"]);
    assert_eq!(hosts(load_forwarders(&named, file(), &[]).unwrap()), ["cli"]);
    assert_eq!(hosts(load_forwarders(&bare, file(), &environment).unwrap()), ["env"]);
    assert_eq!(hosts(load_forwarders(&bare, file(), &[]).unwrap()), ["file"]);
    assert!(load_forwarders(&cli(&[]), no_file(), &[]).unwrap().is_empty());
}

#[test]
fn load_errors() {
    match load_forwarders(&cli(&["a:1:r:1", "bad", "worse"]), no_file(), &[]) {
        Err(LoadError::Forwarder(text)) => assert_eq!(text, parse_forwarder("bad").unwrap_err()),
        _ => panic!("a bad argument is an error"),
    }
    let named = with_file(cli(&[]));
    let unreadable = Some(ConfigRead::Unreadable("gone".to_string()));
    match load_forwarders(&named, unreadable, &[]) {
        Err(LoadError::File(e)) => assert_eq!(e, "gone"),
        _ => panic!("a file that is needed and unreadable is an error"),
    }
    let unparsable = Some(ConfigRead::Unparsable("odd".to_string()));
    match load_forwarders(&named, unparsable, &[]) {
        Err(LoadError::File(e)) => assert_eq!(e, "odd"),
        _ => panic!("a file that is needed and unparsable is an error"),
    }
    let unreadable = Some(ConfigRead::Unreadable("gone".to_string()));
    let given = with_file(cli(&["a:1:r:1"]));
    assert_eq!(load_forwarders(&given, unreadable, &[]).unwrap().len(), 1);
}

#[test]
fn the_environment_replaces_sources_that_do_not_load() {
    let environment = vars(&[("RFW_FORWARDER_1", "127.0.0.1:9001:one.example:80")]);
    let ports = |list: Vec<ForwarderConfig>| -> Vec<u16> {
        list.into_iter().map(|f| f.local_port).collect()
    };
    let bad = load_forwarders(&cli(&["bad"]), no_file(), &environment).unwrap();
    assert_eq!(ports(bad), [9001]);
    let named = with_file(cli(&[]));
    let unreadable = Some(ConfigRead::Unreadable("gone".to_string()));
    let list = load_forwarders(&named, unreadable, &environment).unwrap();
    assert_eq!(ports(list), [9001]);
    let unparsable = Some(ConfigRead::Unparsable("odd".to_string()));
    let list = load_forwarders(&named, unparsable, &environment).unwrap();
    assert_eq!(ports(list), [9001]);
    // A variable that defines nothing replaces nothing.
    let broken = vars(&[("RFW_FORWARDER_1", "nonsense")]);
    assert!(load_forwarders(&cli(&["bad"]), no_file(), &broken).is_err());
}

#[test]
fn settings_come_from_the_file_and_flags_override_them() {
    let args = with_file(cli(&[]));
    let s = load_settings(&args, Some(parsed(vec![], file_settings()))).unwrap();
    assert_eq!(s.metrics_addr.as_deref(), Some("127.0.0.1:9090"));
    assert_eq!(s.report_interval_secs, 7);
    assert_eq!(s.sample_interval_secs, 3);
    assert_eq!(s.buffer_bytes, 4096);
    assert_eq!(s.socket_buffer_bytes, Some(8192));
    assert!(s.use_splice);

    let mut args = with_file(cli(&[]));
    args.metrics_addr = Some("h:1".to_string());
    args.sample_interval_secs = Some(2);
    args.socket_buffer_bytes = Some(0);
    args.use_splice = true;
    let s = load_settings(&args, Some(parsed(vec![], Settings::default()))).unwrap();
    assert_eq!(s.metrics_addr.as_deref(), Some("h:1"));
    assert_eq!(s.sample_interval_secs, 2);
    assert_eq!(s.report_interval_secs, 60);
    assert_eq!(s.socket_buffer_bytes, Some(0));
    assert!(s.use_splice);

    let args = with_file(cli(&[]));
    let unreadable = Some(ConfigRead::Unreadable("gone".to_string()));
    assert_eq!(load_settings(&args, unreadable).unwrap().buffer_bytes, 65536);
    let unparsable = Some(ConfigRead::Unparsable("odd".to_string()));
    assert_eq!(load_settings(&args, unparsable).unwrap_err(), "odd");
}

#[test]
fn reloaded_settings_fall_back_to_the_defaults() {
    assert_eq!(
        load_settings_from_file(&parsed(vec![], file_settings())).buffer_bytes,
        4096
    );
    let unreadable: ConfigRead<String> = ConfigRead::Unreadable("gone".to_string());
    assert_eq!(load_settings_from_file(&unreadable).buffer_bytes, 65536);
    let unparsable: ConfigRead<String> = ConfigRead::Unparsable("odd".to_string());
    assert_eq!(load_settings_from_file(&unparsable).report_interval_secs, 60);
}

#[test]
fn knobs_follow_the_settings() {
    let mut knobs = RuntimeKnobs::from_settings(&Settings::default());
    assert_eq!(knobs.buffer_bytes(), 65536);
    assert_eq!(knobs.socket_buffer_bytes(), None);
    assert!(!knobs.use_splice());
    knobs.update(&file_settings());
    assert_eq!(knobs.buffer_bytes(), 4096);
    assert_eq!(knobs.socket_buffer_bytes(), Some(8192));
    assert!(knobs.use_splice());
    let mut zero = file_settings();
    zero.socket_buffer_bytes = Some(0);
    knobs.update(&zero);
    assert_eq!(knobs.socket_buffer_bytes(), None);
    assert_eq!(knobs.snapshot().socket_buffer_bytes, None);
    assert_eq!(knobs.snapshot().buffer_bytes, 4096);
}

#[test]
fn something_must_be_forwarded() {
    assert!(require_forwarders(&[forwarder("a", 1, "b", 2)]).is_ok());
    assert_eq!(
        require_forwarders(&[]).unwrap_err(),
        "No forwarders configured.\n\
         Usage: rfw [OPTIONS] [FORWARDERS...]\n\
         Examples:\n\
         rfw localhost:8080:172.16.0.5:80\n\
         rfw -f forwarders.yml\n\
         rfw localhost:8080:example.com:80 localhost:8081:other.com:443\n\n\
         Environment: RFW_FORWARDER_1, RFW_FORWARDER_2, ... override everything.\n\n\
         Forwarder format: local_host:local_port:remote_host:remote_port"
    );
}
