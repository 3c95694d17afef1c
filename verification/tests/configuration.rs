use tacho_bridge::config::{
    generate_default_config, generate_ident, get_from_cache, load_config_to_cache,
    remove_card_from_config, split_host_to_parts, trace_cache, update_card_config,
    update_server_config, AppearanceConfig, CacheConfigData, CacheSection, CardConfig, CardEntry,
    ConfigError, ConfigurationFile, DarkTheme, ServerConfig,
};

fn sample_config() -> ConfigurationFile {
    ConfigurationFile {
        name: String::from("Tacho Bridge Application"),
        version: String::from("1.2.3"),
        description: String::from("test"),
        appearance: Some(AppearanceConfig { dark_theme: DarkTheme::Auto }),
        ident: Some(String::from("TBA0000000000001")),
        server: Some(ServerConfig { host: String::from("broker.example:1883") }),
        cards: vec![
            CardEntry {
                card_number: String::from("111"),
                config: CardConfig { iccid: String::from("89440001"), expire: Some(42) },
            },
            CardEntry {
                card_number: String::from("222"),
                config: CardConfig { iccid: String::from(""), expire: None },
            },
        ],
    }
}

#[test]
fn cache_lookup_resolves_identity_to_card_number() {
    let cache = load_config_to_cache(&sample_config());
    assert_eq!(get_from_cache(&cache, CacheSection::Cards, "89440001"), "111");
    assert_eq!(get_from_cache(&cache, CacheSection::Cards, "89449999"), "");
    assert_eq!(
        get_from_cache(&cache, CacheSection::Server, "host"),
        "broker.example:1883"
    );
    assert_eq!(get_from_cache(&cache, CacheSection::Server, "port"), "");
    assert_eq!(
        get_from_cache(&cache, CacheSection::Ident, "ident"),
        "TBA0000000000001"
    );
    assert_eq!(
        get_from_cache(&cache, CacheSection::Appearance, "dark_theme"),
        "Auto"
    );
    assert_eq!(get_from_cache(&cache, CacheSection::Appearance, "theme"), "");
}

#[test]
fn cache_lookup_on_empty_cache() {
    let cache = CacheConfigData::default();
    assert_eq!(get_from_cache(&cache, CacheSection::Cards, "x"), "");
    assert_eq!(get_from_cache(&cache, CacheSection::Server, "host"), "");
    assert_eq!(get_from_cache(&cache, CacheSection::Ident, "ident"), "");
    assert_eq!(get_from_cache(&cache, CacheSection::Appearance, "dark_theme"), "");
}

#[test]
fn split_host_accepts_host_and_port() {
    assert_eq!(
        split_host_to_parts("example.com:8080").unwrap(),
        (String::from("example.com"), 8080)
    );
    assert_eq!(split_host_to_parts(":80").unwrap(), (String::from(""), 80));
    assert_eq!(
        split_host_to_parts("h:+80").unwrap(),
        (String::from("h"), 80)
    );
    assert_eq!(
        split_host_to_parts("h:0080").unwrap(),
        (String::from("h"), 80)
    );
}

#[test]
fn split_host_rejects_bad_shapes() {
    assert_eq!(
        split_host_to_parts("example.com").unwrap_err(),
        "Host doesn't correspond to the format 'host:port'"
    );
    assert_eq!(
        split_host_to_parts("a:b:c").unwrap_err(),
        "Host doesn't correspond to the format 'host:port'"
    );
    assert_eq!(split_host_to_parts("h:x").unwrap_err(), "Invalid port number");
    assert_eq!(split_host_to_parts("h:").unwrap_err(), "Invalid port number");
    assert_eq!(split_host_to_parts("h:99999").unwrap_err(), "Invalid port number");
    assert_eq!(split_host_to_parts("h:+").unwrap_err(), "Invalid port number");
}

#[test]
fn update_card_adds_a_new_entry() {
    let mut config = sample_config();
    let r = update_card_config(&mut config, "89440002", "333", Some(7));
    assert!(r.is_ok());
    assert_eq!(config.cards.len(), 3);
    assert_eq!(config.cards[2].card_number, "333");
    assert_eq!(config.cards[2].config.iccid, "89440002");
    assert_eq!(config.cards[2].config.expire, Some(7));
}

#[test]
fn update_card_fills_in_an_empty_identity() {
    let mut config = sample_config();
    let r = update_card_config(&mut config, "89440022", "222", None);
    assert!(r.is_ok());
    assert_eq!(config.cards.len(), 2);
    assert_eq!(config.cards[1].config.iccid, "89440022");
}

#[test]
fn update_card_refuses_an_occupied_card_number() {
    let mut config = sample_config();
    let r = update_card_config(&mut config, "89440099", "111", None);
    assert_eq!(r.unwrap_err(), ConfigError::AlreadyExists);
    assert_eq!(config.cards[0].config.iccid, "89440001");
}

#[test]
fn remove_card_drops_the_entry() {
    let mut config = sample_config();
    assert!(remove_card_from_config(&mut config, "111").is_ok());
    assert_eq!(config.cards.len(), 1);
    assert_eq!(config.cards[0].card_number, "222");
}

#[test]
fn remove_card_unknown_number_is_reported() {
    let mut config = sample_config();
    assert_eq!(
        remove_card_from_config(&mut config, "999").unwrap_err(),
        ConfigError::NotFound
    );
    assert_eq!(config.cards.len(), 2);
}

#[test]
fn update_server_sets_all_three_fields() {
    let mut config = sample_config();
    update_server_config(&mut config, "new.example:8883", "TBA0000000000002", "Dark");
    assert_eq!(config.server.as_ref().unwrap().host, "new.example:8883");
    assert_eq!(config.ident.as_ref().unwrap().as_str(), "TBA0000000000002");
    assert_eq!(
        config.appearance.as_ref().unwrap().dark_theme,
        DarkTheme::Dark
    );
    update_server_config(&mut config, "h:1", "i", "sepia");
    assert_eq!(
        config.appearance.as_ref().unwrap().dark_theme,
        DarkTheme::Auto
    );
}

#[test]
fn trace_lines_render_the_cache() {
    let cache = load_config_to_cache(&sample_config());
    let lines = trace_cache(&cache);
    assert_eq!(
        lines,
        vec![
            String::from("CN: 111 | ICCID: 89440001 | Expire: 42"),
            String::from("CN: 222 | ICCID:  | Expire: 0"),
            String::from("ident: TBA0000000000001"),
            String::from("Server Host: broker.example:1883"),
            String::from("Appearance: Auto"),
        ]
    );
}

#[test]
fn trace_lines_name_missing_sections() {
    let cache = CacheConfigData::default();
    let lines = trace_cache(&cache);
    assert_eq!(
        lines,
        vec![
            String::from("No server configuration found."),
            String::from("No appearance configuration found."),
        ]
    );
}

#[test]
fn ident_is_prefix_plus_thirteen_digits() {
    assert_eq!(generate_ident(1234567), "TBA0000001234567");
    assert_eq!(generate_ident(0), "TBA0000000000000");
    // The timestamp is reduced modulo 10^12.
    assert_eq!(generate_ident(1_000_000_000_000), "TBA0000000000000");
    assert_eq!(generate_ident(1_700_000_123_456_789), "TBA0000123456789");
}

#[test]
fn default_config_shape() {
    let config = generate_default_config("9.9.9", 5);
    assert_eq!(config.name, "Tacho Bridge Application");
    assert_eq!(config.version, "9.9.9");
    assert_eq!(
        config.description,
        "Application for the tachograph cards authentication"
    );
    assert_eq!(config.ident.as_ref().unwrap().as_str(), "TBA0000000000005");
    assert!(config.server.is_none());
    assert!(config.cards.is_empty());
    assert_eq!(
        config.appearance.as_ref().unwrap().dark_theme,
        DarkTheme::Auto
    );
}
