use local_http_proxy::config::{
    apply_config_command, apply_overrides, AppConfig, Args, Command, ConfigChange, ConfigFile,
    ProxyMode,
};
use local_http_proxy::routes::RouteTable;

#[test]
fn default_config_file() {
    let c = ConfigFile::default();
    assert_eq!(c.port, 8000);
    assert_eq!(c.mode, ProxyMode::Path);
    assert_eq!(c.routes.len(), 0);
}

#[test]
fn mode_names() {
    assert_eq!(ProxyMode::Domain.as_str(), "domain");
    assert_eq!(ProxyMode::Path.as_str(), "path");
}

#[test]
fn start_port_overrides() {
    let mut c = AppConfig {
        path: "cfg.json".into(),
        port: 8000,
        mode: ProxyMode::Domain,
        routes: RouteTable::new(),
    };
    apply_overrides(&mut c, &Args { config_file: "x".into(), command: Command::List });
    assert_eq!(c.port, 8000);
    apply_overrides(&mut c, &Args { config_file: "x".into(), command: Command::Start { port: 9001 } });
    assert_eq!(c.port, 9001);
    let f = ConfigFile::default();
    let a = AppConfig::from_file(
        "p".into(),
        f,
        &Args { config_file: "p".into(), command: Command::Start { port: 7 } },
    );
    assert_eq!(a.port, 7);
    assert_eq!(a.mode, ProxyMode::Path);
}

#[test]
fn config_commands_change_the_file() {
    let mut c = ConfigFile::default();
    let r = apply_config_command(
        &mut c,
        &Command::Add { source: "/My-App".into(), target: "3000".into() },
    )
    .unwrap();
    match &r {
        ConfigChange::Added { key, target, previous } => {
            assert_eq!(key, "my-app");
            assert_eq!(target, "http://localhost:3000");
            assert!(previous.is_none());
        }
        _ => panic!("expected an addition"),
    }
    assert!(r.needs_write());
    assert_eq!(c.routes.get("my-app").unwrap(), "http://localhost:3000");
    assert!(apply_config_command(&mut c, &Command::Add { source: "-x".into(), target: "1".into() }).is_err());
    assert!(apply_config_command(&mut c, &Command::Add { source: "x".into(), target: "https://h".into() }).is_err());
    assert_eq!(c.routes.len(), 1);
    let r = apply_config_command(&mut c, &Command::Remove { source: "nope".into() }).unwrap();
    assert!(!r.needs_write());
    let r = apply_config_command(&mut c, &Command::Remove { source: "my-app".into() }).unwrap();
    assert!(r.needs_write());
    assert_eq!(c.routes.len(), 0);
    let r = apply_config_command(&mut c, &Command::SetMode { mode: ProxyMode::Domain }).unwrap();
    assert!(r.needs_write());
    assert_eq!(c.mode, ProxyMode::Domain);
    let r = apply_config_command(&mut c, &Command::List).unwrap();
    assert!(!r.needs_write());
}
