use rfw::config::{
    compile_rules, ConfigError, GeoSource, RuleOptions, RULE_BLOCK_ALL, RULE_BLOCK_EMAIL,
    RULE_BLOCK_FET_LOOSE, RULE_BLOCK_FET_STRICT, RULE_BLOCK_HTTP, RULE_BLOCK_QUIC,
    RULE_BLOCK_SOCKS5, RULE_BLOCK_WIREGUARD, RULE_GEOIP_ENABLED, RULE_GEOIP_WHITELIST,
};

fn options() -> RuleOptions {
    RuleOptions {
        countries: Vec::new(),
        allow_only_countries: Vec::new(),
        block_all_from: Vec::new(),
        block_email: false,
        block_http: false,
        block_socks5: false,
        block_fet_strict: false,
        block_fet_loose: false,
        block_wireguard: false,
        block_quic: false,
        block_all: false,
    }
}

#[test]
fn no_geo_rules_global() {
    let mut o = options();
    o.block_http = true;
    o.block_quic = true;
    let p = compile_rules(&o).unwrap();
    assert_eq!(p.config, RULE_BLOCK_HTTP | RULE_BLOCK_QUIC);
    assert_eq!(p.geo, GeoSource::Unused);
}

#[test]
fn allow_only_is_whitelist() {
    let mut o = options();
    o.allow_only_countries = vec!["US".to_string(), "JP".to_string()];
    let p = compile_rules(&o).unwrap();
    assert_eq!(p.config, RULE_GEOIP_ENABLED | RULE_GEOIP_WHITELIST);
    assert_eq!(p.geo, GeoSource::AllowOnly);
}

#[test]
fn block_all_from_sets_block_all() {
    let mut o = options();
    o.block_all_from = vec!["CN".to_string()];
    let p = compile_rules(&o).unwrap();
    assert_eq!(p.config, RULE_GEOIP_ENABLED | RULE_BLOCK_ALL);
    assert_eq!(p.geo, GeoSource::BlockAllFrom);
}

#[test]
fn countries_gate_rules() {
    let mut o = options();
    o.countries = vec!["CN".to_string(), "RU".to_string()];
    o.block_email = true;
    o.block_socks5 = true;
    o.block_fet_loose = true;
    o.block_wireguard = true;
    let p = compile_rules(&o).unwrap();
    assert_eq!(
        p.config,
        RULE_GEOIP_ENABLED | RULE_BLOCK_EMAIL | RULE_BLOCK_SOCKS5 | RULE_BLOCK_FET_LOOSE | RULE_BLOCK_WIREGUARD
    );
    assert_eq!(p.geo, GeoSource::Countries);
}

#[test]
fn list_conflict_refused() {
    let mut o = options();
    o.countries = vec!["CN".to_string()];
    o.allow_only_countries = vec!["US".to_string()];
    assert_eq!(compile_rules(&o), Err(ConfigError::CountryListConflict));
    let mut o = options();
    o.allow_only_countries = vec!["US".to_string()];
    o.block_all_from = vec!["CN".to_string()];
    o.block_fet_strict = true;
    o.block_fet_loose = true;
    assert_eq!(compile_rules(&o), Err(ConfigError::CountryListConflict));
}

#[test]
fn fet_conflict_refused() {
    let mut o = options();
    o.block_fet_strict = true;
    o.block_fet_loose = true;
    assert_eq!(compile_rules(&o), Err(ConfigError::FetModeConflict));
    o.block_fet_loose = false;
    assert_eq!(compile_rules(&o).unwrap().config, RULE_BLOCK_FET_STRICT);
}
