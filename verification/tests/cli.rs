//! The commands.

use mc_tunnel::cli::{
    check_keyid_len, connect_listen, forget_line, found_identity, init_json, init_plan,
    init_report, name_line, net_opts, publish_settings, shown_keyid_len, CliError, InitPlan,
};
use mc_tunnel::config::{Config, ConnectCfg, NetworkCfg, PublishCfg};
use mc_tunnel::name::default_keyid_len;
use mc_tunnel::{CoreError, Identity, DEFAULT_KEYID_LEN};

const KEYID: &str = "eh7ddx5bksrgcytl7bkai36se4nxx3klnk7elksyq57pi74xeg4q";

fn identity() -> Identity {
    let hex = "9d61b19deffd5a60ba844af492ec2cc44449c5697b326919703bac031cae7f60";
    let mut secret = [0u8; 32];
    for i in 0..32 {
        secret[i] = u8::from_str_radix(&hex[2 * i..2 * i + 2], 16).unwrap();
    }
    Identity::from_secret_bytes(&secret)
}

#[test]
fn keyid_lengths_are_checked() {
    assert_eq!(check_keyid_len(16), Ok(()));
    assert_eq!(check_keyid_len(52), Ok(()));
    assert_eq!(check_keyid_len(15), Err(CliError::KeyidLen(15)));
    assert_eq!(
        check_keyid_len(53).unwrap_err().message(),
        "keyid_len must be in 16..=52, got 53"
    );
    assert_eq!(shown_keyid_len(Some(20), 16), Ok(20));
    assert_eq!(shown_keyid_len(Some(1), 16), Err(CliError::KeyidLen(1)));
    assert_eq!(shown_keyid_len(None, 99), Ok(99));
}

#[test]
fn init_is_refused_before_it_starts() {
    assert!(matches!(
        init_plan(15, true, false, None),
        Err(CliError::KeyidLen(15))
    ));
    assert!(matches!(
        init_plan(16, true, false, None),
        Err(CliError::IdentityExists)
    ));
    assert!(matches!(
        init_plan(16, true, true, None),
        Ok(InitPlan::Generate)
    ));
    assert!(matches!(
        init_plan(16, false, false, Some("abc".to_string())),
        Ok(InitPlan::Grind(p)) if p == "abc"
    ));
    assert_eq!(
        CliError::IdentityExists.message(),
        "an identity already exists for this profile (use --force to overwrite)"
    );
    assert_eq!(found_identity(None).err(), Some(CliError::Aborted));
    assert_eq!(CliError::Aborted.message(), "vanity grinding aborted");
    assert!(found_identity(Some(identity())).is_ok());
}

#[test]
fn a_new_identity_is_described() {
    let name = identity().name("", 16).unwrap();
    assert_eq!(
        init_json(&name, 16, "C:\\dir\\key"),
        format!(
            r#"{{"keyid":"{k}","keyid_len":16,"name":"{k}.minecraft","key_storage":"C:\\dir\\key"}}"#,
            k = &KEYID[..16]
        )
    );
    let lines = init_report(&name, "OS keyring");
    assert_eq!(lines.len(), 5);
    assert_eq!(lines[0], "Generated new identity.");
    assert_eq!(lines[1], "  key stored in : OS keyring");
    assert_eq!(lines[2], format!("  keyid         : {}", &KEYID[..16]));
    assert_eq!(lines[3], format!("  address       : {}.minecraft", &KEYID[..16]));
    assert_eq!(
        lines[4],
        "\nKeep the key file secret \u{2014} it *is* your identity."
    );
    assert_eq!(forget_line("key file"), "Removed identity (key file).");
}

#[test]
fn a_name_is_shown() {
    let id = identity();
    assert_eq!(
        name_line(&id, "mine", 20, false).unwrap(),
        format!("mine.{}.minecraft", &KEYID[..20])
    );
    assert_eq!(
        name_line(&id, "mine", 20, true).unwrap(),
        format!(
            r#"{{"keyid":"{k}","keyid_len":20,"vanity":"mine","name":"mine.{k}.minecraft"}}"#,
            k = &KEYID[..20]
        )
    );
    assert_eq!(
        name_line(&id, "no!", 20, true),
        Err(CoreError::VanityCharset)
    );
    assert!(name_line(&id, "no!", 2, true).is_err());
}

#[test]
fn settings_have_defaults() {
    let cfg = Config::default();
    assert!(cfg.network.bootstrap.is_empty() && cfg.network.relays.is_empty());
    assert!(cfg.network.mdns && !cfg.network.use_ipfs_dht);
    assert_eq!(cfg.network.keyid_len, DEFAULT_KEYID_LEN);
    assert_eq!(NetworkCfg::default().keyid_len, default_keyid_len());
    assert_eq!(cfg.publish.target, "127.0.0.1:25565");
    assert_eq!(cfg.publish.vanity, "");
    assert_eq!((cfg.publish.max_conns, cfg.publish.max_conn_rate), (32, 16));
    assert_eq!(cfg.connect.listen, "127.0.0.1:25566");
}

#[test]
fn arguments_override_the_file() {
    let file = PublishCfg {
        target: "file".to_string(),
        vanity: "label".to_string(),
        max_conns: 7,
        max_conn_rate: 9,
    };
    let s = publish_settings(None, None, None, &file);
    assert_eq!((s.target.as_str(), s.vanity.as_str()), ("file", "label"));
    assert_eq!((s.max_conns, s.max_conn_rate), (7, 9));
    let s = publish_settings(Some("arg".to_string()), Some(String::new()), Some(1), &file);
    assert_eq!((s.target.as_str(), s.vanity.as_str()), ("arg", ""));
    assert_eq!((s.max_conns, s.max_conn_rate), (1, 9));
    let c = ConnectCfg { listen: "file".to_string() };
    assert_eq!(connect_listen(None, &c), "file");
    assert_eq!(connect_listen(Some("arg".to_string()), &c), "arg");
}

#[test]
fn the_role_shapes_the_node() {
    let mut cfg = Config::default();
    cfg.network.bootstrap = vec!["b".to_string()];
    cfg.network.relays = vec!["r".to_string()];
    cfg.network.mdns = false;
    cfg.network.use_ipfs_dht = true;
    let opts = net_opts(&cfg, true, false);
    assert_eq!(opts.bootstrap, ["b".to_string()]);
    assert_eq!(opts.relays, ["r".to_string()]);
    assert!(opts.use_ipfs_dht && !opts.enable_mdns);
    assert!(opts.reserve && !opts.relay_server);
    let opts = net_opts(&cfg, false, true);
    assert!(!opts.reserve && opts.relay_server);
}
