//! The configuration word read by the classifier, and its compilation from
//! the user's policy.
use vstd::prelude::*;

verus! {

/// Consult the prefix table.
pub const RULE_GEOIP_ENABLED: u32 = 0x1;
/// Drop unless the source is in the prefix set.
pub const RULE_GEOIP_WHITELIST: u32 = 0x2;
/// Drop mail submission (SMTP ports).
pub const RULE_BLOCK_EMAIL: u32 = 0x4;
/// Drop HTTP request lines.
pub const RULE_BLOCK_HTTP: u32 = 0x8;
/// Drop SOCKS5 client greetings.
pub const RULE_BLOCK_SOCKS5: u32 = 0x10;
/// Drop fully encrypted traffic, dropping when undecided.
pub const RULE_BLOCK_FET_STRICT: u32 = 0x20;
/// Drop fully encrypted traffic, passing when undecided.
pub const RULE_BLOCK_FET_LOOSE: u32 = 0x40;
/// Drop WireGuard framing.
pub const RULE_BLOCK_WIREGUARD: u32 = 0x80;
/// Drop QUIC long-header packets of a known version.
pub const RULE_BLOCK_QUIC: u32 = 0x100;
/// Drop everything from matched sources.
pub const RULE_BLOCK_ALL: u32 = 0x200;

/// Whether `flag` is set in `config`.
pub open spec fn has_flag(config: u32, flag: u32) -> bool {
    config & flag != 0
}

/// The invariants of a configuration word: the two FET modes exclude each
/// other, and whitelist mode needs the prefix table.
pub open spec fn config_wf(config: u32) -> bool {
    &&& !(has_flag(config, RULE_BLOCK_FET_STRICT) && has_flag(config, RULE_BLOCK_FET_LOOSE))
    &&& (has_flag(config, RULE_GEOIP_WHITELIST) ==> has_flag(config, RULE_GEOIP_ENABLED))
}

/// Whether `config` has `flag` set.
pub fn config_has(config: u32, flag: u32) -> (r: bool)
    ensures
        r == has_flag(config, flag),
{
    config & flag != 0
}

/// The user's policy: country lists and rule toggles.
pub struct RuleOptions {
    pub countries: Vec<String>,
    pub allow_only_countries: Vec<String>,
    pub block_all_from: Vec<String>,
    pub block_email: bool,
    pub block_http: bool,
    pub block_socks5: bool,
    pub block_fet_strict: bool,
    pub block_fet_loose: bool,
    pub block_wireguard: bool,
    pub block_quic: bool,
    pub block_all: bool,
}

/// Which country list feeds the prefix table.
#[derive(PartialEq, Eq, Structural, Clone, Copy, Debug)]
pub enum GeoSource {
    /// No geo gate: the rules apply to every source.
    Unused,
    /// Whitelist: the allow-only list.
    AllowOnly,
    /// Blacklist with everything dropped: the block-all-from list.
    BlockAllFrom,
    /// Blacklist gating the chosen rules: the countries list.
    Countries,
}

/// A compiled policy: the configuration word and where its prefixes come from.
#[derive(PartialEq, Eq, Structural, Clone, Copy, Debug)]
pub struct Policy {
    pub config: u32,
    pub geo: GeoSource,
}

/// A policy that cannot be compiled.
#[derive(PartialEq, Eq, Structural, Clone, Copy, Debug)]
pub enum ConfigError {
    /// More than one of the three country lists is given.
    CountryListConflict,
    /// Both FET modes are asked for.
    FetModeConflict,
}

pub open spec fn lists_given(o: RuleOptions) -> nat {
    (if o.countries@.len() > 0 { 1nat } else { 0nat })
        + (if o.allow_only_countries@.len() > 0 { 1nat } else { 0nat })
        + (if o.block_all_from@.len() > 0 { 1nat } else { 0nat })
}

/// The country list chosen, by precedence: allow-only, then block-all-from,
/// then countries.
pub open spec fn geo_source_of(o: RuleOptions) -> GeoSource {
    if o.allow_only_countries@.len() > 0 {
        GeoSource::AllowOnly
    } else if o.block_all_from@.len() > 0 {
        GeoSource::BlockAllFrom
    } else if o.countries@.len() > 0 {
        GeoSource::Countries
    } else {
        GeoSource::Unused
    }
}

pub open spec fn flag_if(b: bool, flag: u32) -> u32 {
    if b { flag } else { 0 }
}

/// The configuration word of a policy.
pub open spec fn config_of(o: RuleOptions) -> u32 {
    let geo = geo_source_of(o);
    flag_if(geo != GeoSource::Unused, RULE_GEOIP_ENABLED)
        | flag_if(geo == GeoSource::AllowOnly, RULE_GEOIP_WHITELIST)
        | flag_if(o.block_email, RULE_BLOCK_EMAIL)
        | flag_if(o.block_http, RULE_BLOCK_HTTP)
        | flag_if(o.block_socks5, RULE_BLOCK_SOCKS5)
        | flag_if(o.block_fet_strict, RULE_BLOCK_FET_STRICT)
        | flag_if(o.block_fet_loose, RULE_BLOCK_FET_LOOSE)
        | flag_if(o.block_wireguard, RULE_BLOCK_WIREGUARD)
        | flag_if(o.block_quic, RULE_BLOCK_QUIC)
        | flag_if(o.block_all || geo == GeoSource::BlockAllFrom, RULE_BLOCK_ALL)
}

fn flag_when(b: bool, flag: u32) -> (r: u32)
    ensures
        r == flag_if(b, flag),
{
    if b {
        flag
    } else {
        0
    }
}

/// Compiles the user's policy into the configuration word. Conflicting
/// country lists and conflicting FET modes are refused, the lists first.
pub fn compile_rules(o: &RuleOptions) -> (r: Result<Policy, ConfigError>)
    ensures
        lists_given(*o) > 1 ==> r == Err::<Policy, ConfigError>(ConfigError::CountryListConflict),
        lists_given(*o) <= 1 && o.block_fet_strict && o.block_fet_loose ==> r == Err::<
            Policy,
            ConfigError,
        >(ConfigError::FetModeConflict),
        lists_given(*o) <= 1 && !(o.block_fet_strict && o.block_fet_loose) ==> r == Ok::<
            Policy,
            ConfigError,
        >(Policy { config: config_of(*o), geo: geo_source_of(*o) }),
        r matches Ok(p) ==> config_wf(p.config),
{
    let given: u32 = (if o.countries.len() > 0 { 1u32 } else { 0 }) + (if o.allow_only_countries.len()
        > 0 {
        1u32
    } else {
        0
    }) + (if o.block_all_from.len() > 0 { 1u32 } else { 0 });
    if given > 1 {
        return Err(ConfigError::CountryListConflict);
    }
    if o.block_fet_strict && o.block_fet_loose {
        return Err(ConfigError::FetModeConflict);
    }
    let geo = if o.allow_only_countries.len() > 0 {
        GeoSource::AllowOnly
    } else if o.block_all_from.len() > 0 {
        GeoSource::BlockAllFrom
    } else if o.countries.len() > 0 {
        GeoSource::Countries
    } else {
        GeoSource::Unused
    };
    let config = flag_when(geo != GeoSource::Unused, RULE_GEOIP_ENABLED) | flag_when(
        geo == GeoSource::AllowOnly,
        RULE_GEOIP_WHITELIST,
    ) | flag_when(o.block_email, RULE_BLOCK_EMAIL) | flag_when(o.block_http, RULE_BLOCK_HTTP)
        | flag_when(o.block_socks5, RULE_BLOCK_SOCKS5) | flag_when(
        o.block_fet_strict,
        RULE_BLOCK_FET_STRICT,
    ) | flag_when(o.block_fet_loose, RULE_BLOCK_FET_LOOSE) | flag_when(
        o.block_wireguard,
        RULE_BLOCK_WIREGUARD,
    ) | flag_when(o.block_quic, RULE_BLOCK_QUIC) | flag_when(
        o.block_all || geo == GeoSource::BlockAllFrom,
        RULE_BLOCK_ALL,
    );
    proof {
        lemma_config_wf(
            geo != GeoSource::Unused,
            geo == GeoSource::AllowOnly,
            o.block_email,
            o.block_http,
            o.block_socks5,
            o.block_fet_strict,
            o.block_fet_loose,
            o.block_wireguard,
            o.block_quic,
            o.block_all || geo == GeoSource::BlockAllFrom,
        );
    }
    Ok(Policy { config, geo })
}

proof fn lemma_config_wf(
    g: bool,
    w: bool,
    e: bool,
    h: bool,
    s: bool,
    fs: bool,
    fl: bool,
    wg: bool,
    q: bool,
    a: bool,
)
    requires
        !(fs && fl),
        w ==> g,
    ensures
        config_wf(
            flag_if(g, RULE_GEOIP_ENABLED) | flag_if(w, RULE_GEOIP_WHITELIST) | flag_if(
                e,
                RULE_BLOCK_EMAIL,
            ) | flag_if(h, RULE_BLOCK_HTTP) | flag_if(s, RULE_BLOCK_SOCKS5) | flag_if(
                fs,
                RULE_BLOCK_FET_STRICT,
            ) | flag_if(fl, RULE_BLOCK_FET_LOOSE) | flag_if(wg, RULE_BLOCK_WIREGUARD) | flag_if(
                q,
                RULE_BLOCK_QUIC,
            ) | flag_if(a, RULE_BLOCK_ALL),
        ),
{
    let (g1, w1, e1, h1, s1, fs1, fl1, wg1, q1, a1) = (
        flag_if(g, 1),
        flag_if(w, 2),
        flag_if(e, 4),
        flag_if(h, 8),
        flag_if(s, 0x10),
        flag_if(fs, 0x20),
        flag_if(fl, 0x40),
        flag_if(wg, 0x80),
        flag_if(q, 0x100),
        flag_if(a, 0x200),
    );
    let c = g1 | w1 | e1 | h1 | s1 | fs1 | fl1 | wg1 | q1 | a1;
    assert((c & 0x20 != 0 <==> fs1 != 0) && (c & 0x40 != 0 <==> fl1 != 0) && (c & 2 != 0 <==> w1
        != 0) && (c & 1 != 0 <==> g1 != 0)) by (bit_vector)
        requires
            g1 == 0 || g1 == 1,
            w1 == 0 || w1 == 2,
            e1 == 0 || e1 == 4,
            h1 == 0 || h1 == 8,
            s1 == 0 || s1 == 0x10,
            fs1 == 0 || fs1 == 0x20,
            fl1 == 0 || fl1 == 0x40,
            wg1 == 0 || wg1 == 0x80,
            q1 == 0 || q1 == 0x100,
            a1 == 0 || a1 == 0x200,
            c == g1 | w1 | e1 | h1 | s1 | fs1 | fl1 | wg1 | q1 | a1,
    ;
}

} // verus!
