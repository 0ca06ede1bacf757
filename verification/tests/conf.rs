use gofer::conf::api::Config;
use gofer::conf::cli::Config as CliConfig;

fn config(dev_mode: bool, cert: &str, key: &str) -> Config {
    let mut config = Config::default();
    config.general.dev_mode = dev_mode;
    config.server.url = "127.0.0.1:8080".to_string();
    config.server.tls_cert = cert.to_string();
    config.server.tls_key = key.to_string();
    config
}

#[test]
fn the_bundled_certificate_is_used_in_development_only() {
    let mut dev = config(true, "localhost", "localhost");
    dev.provision_dev_mode_certs("CERT", "KEY");
    assert_eq!(dev.server.tls_cert, "CERT");
    assert_eq!(dev.server.tls_key, "KEY");
    assert_eq!(dev.server.url, "127.0.0.1:8080");
    assert!(dev.general.dev_mode);

    for (dev_mode, cert, key) in [
        (false, "localhost", "localhost"),
        (true, "own-cert", "localhost"),
        (true, "localhost", "own-key"),
        (true, "", ""),
        (true, "Localhost", "localhost"),
    ] {
        let before = config(dev_mode, cert, key);
        let mut after = config(dev_mode, cert, key);
        after.provision_dev_mode_certs("CERT", "KEY");
        assert_eq!(after, before);
    }
}

#[test]
fn configurations_start_empty() {
    let api = Config::default();
    assert!(!api.general.dev_mode);
    assert_eq!(api.server.storage_path, "");
    assert_eq!(api.scheduler.docker, None);
    let cli = CliConfig::default();
    assert!(!cli.dev_mode);
    assert_eq!(cli.namespace, "");
    assert_eq!(cli.server, "");
}
