//! Configuration data and the lookup cache built from it.
//!
//! The configuration file itself lives on disk and is read and written by
//! the caller; this module holds the data model — the card-number-to-card
//! mapping, the server address, the ident and the appearance — and the pure
//! operations on it: the key/value cache lookup, updating and removing card
//! entries, splitting a host:port address, and rendering the cache for a
//! trace log.  The card mapping is an ordered list of entries keyed by card
//! number; callers keep the card numbers unique.

use vstd::prelude::*;
use vstd::string::StrSliceExecFns;
use vstd::string::StringExecFns;

use crate::hexutil::chars_of_ascii;
use crate::strutil::{dec_chars, str_eq, u64_to_string};

verus! {

/// Server connection settings.
#[derive(Debug)]
pub struct ServerConfig {
    pub host: String,
}

/// Appearance theme choices.
#[derive(Clone, Copy, PartialEq, Eq, Structural, Debug)]
pub enum DarkTheme {
    Auto,
    Dark,
    Light,
}

/// Appearance settings.
#[derive(Clone, Copy, PartialEq, Eq, Structural, Debug)]
pub struct AppearanceConfig {
    pub dark_theme: DarkTheme,
}

/// One card's configuration: the identity read off the card and an optional
/// expiry stamp.
#[derive(Debug)]
pub struct CardConfig {
    pub iccid: String,
    pub expire: Option<u64>,
}

/// One entry of the card mapping: a card number and its configuration.
#[derive(Debug)]
pub struct CardEntry {
    pub card_number: String,
    pub config: CardConfig,
}

/// The configuration file's contents.
#[derive(Debug)]
pub struct ConfigurationFile {
    pub name: String,
    pub version: String,
    pub description: String,
    pub appearance: Option<AppearanceConfig>,
    pub ident: Option<String>,
    pub server: Option<ServerConfig>,
    pub cards: Vec<CardEntry>,
}

/// The in-memory lookup cache built from the configuration file.
#[derive(Debug)]
pub struct CacheConfigData {
    pub cards: Vec<CardEntry>,
    pub server: Option<ServerConfig>,
    pub ident: Option<String>,
    pub appearance: Option<AppearanceConfig>,
}

/// The section of the cache a lookup reads.
#[derive(Clone, Copy, PartialEq, Eq, Structural, Debug)]
pub enum CacheSection {
    Cards,
    Server,
    Ident,
    Appearance,
}

/// Mathematical image of one card entry.
pub ghost struct CardEntryV {
    pub card_number: Seq<char>,
    pub iccid: Seq<char>,
    pub expire: Option<u64>,
}

impl View for CardEntry {
    type V = CardEntryV;

    open spec fn view(&self) -> CardEntryV {
        CardEntryV {
            card_number: self.card_number@,
            iccid: self.config.iccid@,
            expire: self.config.expire,
        }
    }
}

/// The entries of a card mapping as mathematical values.
pub open spec fn cards_view(cards: Seq<CardEntry>) -> Seq<CardEntryV> {
    cards.map_values(|e: CardEntry| e@)
}

/// The host of an optional server configuration.
pub open spec fn server_host_of(s: &Option<ServerConfig>) -> Option<Seq<char>> {
    match s {
        Some(sc) => Some(sc.host@),
        None => None,
    }
}

/// The text of an optional ident.
pub open spec fn ident_of(s: &Option<String>) -> Option<Seq<char>> {
    match s {
        Some(i) => Some(i@),
        None => None,
    }
}

/// The theme of an optional appearance configuration.
pub open spec fn theme_of(a: &Option<AppearanceConfig>) -> Option<DarkTheme> {
    match a {
        Some(ac) => Some(ac.dark_theme),
        None => None,
    }
}

/// Mathematical image of the cache.
pub ghost struct CacheV {
    pub cards: Seq<CardEntryV>,
    pub server_host: Option<Seq<char>>,
    pub ident: Option<Seq<char>>,
    pub theme: Option<DarkTheme>,
}

impl View for CacheConfigData {
    type V = CacheV;

    open spec fn view(&self) -> CacheV {
        CacheV {
            cards: cards_view(self.cards@),
            server_host: server_host_of(&self.server),
            ident: ident_of(&self.ident),
            theme: theme_of(&self.appearance),
        }
    }
}

impl Default for CacheConfigData {
    /// An empty cache: no cards, no server, no ident, no appearance.
    fn default() -> (r: Self)
        ensures
            r@.cards == Seq::<CardEntryV>::empty(),
            r@.server_host is None,
            r@.ident is None,
            r@.theme is None,
    {
        let r = CacheConfigData { cards: Vec::new(), server: None, ident: None, appearance: None };
        proof {
            assert(r@.cards =~= Seq::<CardEntryV>::empty());
        }
        r
    }
}

/// The label of a theme, as the configuration and the front end spell it.
pub open spec fn theme_label(t: DarkTheme) -> Seq<char> {
    match t {
        DarkTheme::Auto => "Auto"@,
        DarkTheme::Dark => "Dark"@,
        DarkTheme::Light => "Light"@,
    }
}

/// The theme a label names; anything unrecognised falls back to Auto.
pub open spec fn theme_of_label(l: Seq<char>) -> DarkTheme {
    if l == "Dark"@ {
        DarkTheme::Dark
    } else if l == "Light"@ {
        DarkTheme::Light
    } else {
        DarkTheme::Auto
    }
}

/// The card number of the first entry from position `i` whose identity
/// equals `iccid`, or the empty string when none matches.
pub open spec fn lookup_card_number_from(cards: Seq<CardEntryV>, iccid: Seq<char>, i: int) -> Seq<
    char,
>
    decreases cards.len() - i,
{
    if i < 0 || i >= cards.len() {
        Seq::empty()
    } else if cards[i].iccid == iccid {
        cards[i].card_number
    } else {
        lookup_card_number_from(cards, iccid, i + 1)
    }
}

/// What a cache lookup returns: the Cards section resolves a card identity
/// to its card number; Server answers the key "host"; Ident answers any key
/// with the ident; Appearance answers the key "dark_theme" with the theme
/// label.  Anything unresolved is the empty string.
pub open spec fn spec_cache_get(c: CacheV, section: CacheSection, key: Seq<char>) -> Seq<char> {
    match section {
        CacheSection::Cards => lookup_card_number_from(c.cards, key, 0),
        CacheSection::Server => match c.server_host {
            Some(h) => if key == "host"@ {
                h
            } else {
                Seq::empty()
            },
            None => Seq::empty(),
        },
        CacheSection::Ident => match c.ident {
            Some(i) => i,
            None => Seq::empty(),
        },
        CacheSection::Appearance => match c.theme {
            Some(t) => if key == "dark_theme"@ {
                theme_label(t)
            } else {
                Seq::empty()
            },
            None => Seq::empty(),
        },
    }
}

/// Retrieves a value from the cache by section and key; unresolved lookups
/// give the empty string, a legal state during initial card bring-up.
pub fn get_from_cache(cache: &CacheConfigData, section: CacheSection, key: &str) -> (r: String)
    ensures
        r@ == spec_cache_get(cache@, section, key@),
{
    match section {
        CacheSection::Cards => {
            let mut i: usize = 0;
            while i < cache.cards.len()
                invariant
                    section == CacheSection::Cards,
                    i <= cache.cards@.len(),
                    lookup_card_number_from(cards_view(cache.cards@), key@, 0)
                        == lookup_card_number_from(cards_view(cache.cards@), key@, i as int),
                decreases cache.cards@.len() - i,
            {
                if str_eq(cache.cards[i].config.iccid.as_str(), key) {
                    assert(cards_view(cache.cards@)[i as int] == cache.cards@[i as int]@);
                    assert(cards_view(cache.cards@)[i as int].iccid == key@);
                    assert(lookup_card_number_from(cards_view(cache.cards@), key@, i as int)
                        == cards_view(cache.cards@)[i as int].card_number);
                    let r = cache.cards[i].card_number.clone();
                    assert(lookup_card_number_from(cards_view(cache.cards@), key@, 0) == r@);
                    return r;
                }
                assert(cards_view(cache.cards@)[i as int].iccid != key@);
                i += 1;
            }
            String::new()
        },
        CacheSection::Server => {
            match &cache.server {
                Some(server) => {
                    if str_eq(key, "host") {
                        server.host.clone()
                    } else {
                        String::new()
                    }
                },
                None => String::new(),
            }
        },
        CacheSection::Ident => {
            match &cache.ident {
                Some(ident) => ident.clone(),
                None => String::new(),
            }
        },
        CacheSection::Appearance => {
            match &cache.appearance {
                Some(appearance) => {
                    if str_eq(key, "dark_theme") {
                        theme_label_string(appearance.dark_theme)
                    } else {
                        String::new()
                    }
                },
                None => String::new(),
            }
        },
    }
}

/// Renders a theme as its label.
pub fn theme_label_string(t: DarkTheme) -> (r: String)
    ensures
        r@ == theme_label(t),
{
    match t {
        DarkTheme::Auto => String::from_str("Auto"),
        DarkTheme::Dark => String::from_str("Dark"),
        DarkTheme::Light => String::from_str("Light"),
    }
}

/// How many colons stand at or after position `i`.
pub open spec fn count_colons_from(s: Seq<char>, i: int) -> nat
    decreases s.len() - i,
{
    if i < 0 || i >= s.len() {
        0
    } else if s[i] == ':' {
        1 + count_colons_from(s, i + 1)
    } else {
        count_colons_from(s, i + 1)
    }
}

/// The position of the first colon at or after `i` (the length if none).
pub open spec fn first_colon_from(s: Seq<char>, i: int) -> int
    decreases s.len() - i,
{
    if i < 0 || i >= s.len() {
        s.len() as int
    } else if s[i] == ':' {
        i
    } else {
        first_colon_from(s, i + 1)
    }
}

/// Every character is a decimal digit.
pub open spec fn all_digits(s: Seq<char>) -> bool {
    forall|i: int| 0 <= i < s.len() ==> 48 <= (#[trigger] s[i]) as int <= 57
}

/// The number the digits spell, most significant first.
pub open spec fn digits_val(s: Seq<char>) -> int
    decreases s.len(),
{
    if s.len() == 0 {
        0
    } else {
        digits_val(s.drop_last()) * 10 + (s.last() as int - 48)
    }
}

/// The port a text names, exactly as the standard parse of an unsigned
/// 16-bit number accepts it: an optional leading plus sign, then at least
/// one digit, with a value that fits.
pub open spec fn spec_parse_u16(s: Seq<char>) -> Option<u16> {
    let t = if s.len() >= 1 && s[0] == '+' {
        s.drop_first()
    } else {
        s
    };
    if t.len() >= 1 && all_digits(t) && digits_val(t) <= 65535 {
        Some(digits_val(t) as u16)
    } else {
        None
    }
}

/// What splitting a host:port text gives: the parts around the colon when
/// there is exactly one and the port parses, else nothing.
pub open spec fn spec_split_host(s: Seq<char>) -> Option<(Seq<char>, u16)> {
    if count_colons_from(s, 0) == 1 {
        let c = first_colon_from(s, 0);
        match spec_parse_u16(s.subrange(c + 1, s.len() as int)) {
            Some(p) => Some((s.subrange(0, c), p)),
            None => None,
        }
    } else {
        None
    }
}

proof fn lemma_digits_nonneg(s: Seq<char>)
    requires
        all_digits(s),
    ensures
        digits_val(s) >= 0,
    decreases s.len(),
{
    if s.len() > 0 {
        assert(all_digits(s.drop_last())) by {
            assert(forall|k: int|
                0 <= k < s.drop_last().len() ==> #[trigger] s.drop_last()[k] == s[k]);
        }
        lemma_digits_nonneg(s.drop_last());
    }
}

proof fn lemma_digits_prefix_bound(s: Seq<char>, i: int)
    requires
        all_digits(s),
        0 <= i <= s.len(),
    ensures
        digits_val(s) >= digits_val(s.subrange(0, i)),
    decreases s.len() - i,
{
    if i < s.len() {
        lemma_digits_prefix_bound(s, i + 1);
        assert(s.subrange(0, i + 1).drop_last() =~= s.subrange(0, i));
        assert(all_digits(s.subrange(0, i))) by {
            assert(forall|k: int|
                0 <= k < i ==> #[trigger] s.subrange(0, i)[k] == s[k]);
        }
        lemma_digits_nonneg(s.subrange(0, i));
        assert(digits_val(s.subrange(0, i + 1)) == digits_val(s.subrange(0, i)) * 10 + (s[i] as int
            - '0' as int));
    } else {
        assert(s.subrange(0, i) =~= s);
    }
}

/// Parses the digits of `s` from position `from` on as a 16-bit port
/// number, as the standard parse would.
fn parse_port(s: &str, from: usize) -> (r: Option<u16>)
    requires
        from <= s@.len(),
    ensures
        match r {
            Some(p) => spec_parse_u16(s@.subrange(from as int, s@.len() as int)) == Some(p),
            None => spec_parse_u16(s@.subrange(from as int, s@.len() as int)) is None,
        },
{
    let ghost t0 = s@.subrange(from as int, s@.len() as int);
    let n = s.unicode_len();
    let mut i: usize = from;
    if i < n && s.get_char(i) == '+' {
        i += 1;
        proof {
            assert(t0[0] == '+');
        }
    } else {
        proof {
            if t0.len() >= 1 {
                assert(t0[0] == s@[from as int]);
            }
        }
    }
    let ghost t = if t0.len() >= 1 && t0[0] == '+' {
        t0.drop_first()
    } else {
        t0
    };
    proof {
        assert(t =~= s@.subrange(i as int, s@.len() as int));
    }
    if i >= n {
        // no digits at all
        return None;
    }
    let start = i;
    let mut value: u32 = 0;
    while i < n
        invariant
            start <= i <= n,
            n == s@.len(),
            from <= start <= s@.len(),
            t0 == s@.subrange(from as int, s@.len() as int),
            t == (if t0.len() >= 1 && t0[0] == '+' {
                t0.drop_first()
            } else {
                t0
            }),
            t == s@.subrange(start as int, s@.len() as int),
            all_digits(s@.subrange(start as int, i as int)),
            value == digits_val(s@.subrange(start as int, i as int)),
            value <= 65535,
        decreases n - i,
    {
        let c = s.get_char(i);
        let cv = c as u32;
        proof {
            assert(cv as int == c as int);
        }
        if cv < 48 || cv > 57 {
            assert(t[i - start] == c);
            assert(!all_digits(t));
            return None;
        }
        let d: u32 = cv - 48;
        proof {
            assert(s@.subrange(start as int, i + 1).drop_last() =~= s@.subrange(
                start as int,
                i as int,
            ));
            assert(s@.subrange(start as int, i + 1).last() == c);
            assert(forall|k: int|
                0 <= k < i + 1 - start ==> #[trigger] s@.subrange(start as int, i + 1)[k] == s@[
                    start + k]);
            assert(all_digits(s@.subrange(start as int, i + 1)));
            assert(digits_val(s@.subrange(start as int, i + 1)) == digits_val(
                s@.subrange(start as int, i as int),
            ) * 10 + (c as int - 48));
        }
        value = value * 10 + d;
        i += 1;
        proof {
            assert(value == digits_val(s@.subrange(start as int, i as int)));
            assert(all_digits(s@.subrange(start as int, i as int)));
        }
        if value > 65535 {
            proof {
                if all_digits(t) {
                    lemma_digits_prefix_bound(t, i - start);
                    assert(t.subrange(0, i - start) =~= s@.subrange(start as int, i as int));
                    assert(digits_val(t) > 65535);
                }
            }
            return None;
        }
    }
    proof {
        assert(s@.subrange(start as int, i as int) =~= t);
    }
    Some(value as u16)
}

/// Splits a "host:port" text into host and port.  Exactly one colon must be
/// present and the part after it must parse as a port number; each failure
/// names its reason, as the caller logs it.
pub fn split_host_to_parts(host: &str) -> (r: Result<(String, u16), String>)
    ensures
        match r {
            Ok((h, p)) => spec_split_host(host@) == Some((h@, p)),
            Err(m) => spec_split_host(host@) is None && (count_colons_from(host@, 0) != 1 ==> m@
                == "Host doesn't correspond to the format 'host:port'"@) && (count_colons_from(
                host@,
                0,
            ) == 1 ==> m@ == "Invalid port number"@),
        },
{
    let n = host.unicode_len();
    let mut i: usize = 0;
    let mut colons: usize = 0;
    let mut first: usize = n;
    while i < n
        invariant
            i <= n,
            n == host@.len(),
            colons <= i,
            count_colons_from(host@, 0) == colons + count_colons_from(host@, i as int),
            first_colon_from(host@, 0) == (if colons > 0 {
                first as int
            } else {
                first_colon_from(host@, i as int)
            }),
            colons == 0 ==> first == n,
            colons > 0 ==> first < i,
        decreases n - i,
    {
        if host.get_char(i) == ':' {
            if colons == 0 {
                first = i;
            }
            colons += 1;
        }
        i += 1;
    }
    if colons != 1 {
        return Err(String::from_str("Host doesn't correspond to the format 'host:port'"));
    }
    match parse_port(host, first + 1) {
        Some(p) => {
            let h = host.substring_char(0, first).to_owned();
            Ok((h, p))
        },
        None => Err(String::from_str("Invalid port number")),
    }
}

/// Failures of the configuration operations.
#[derive(Clone, Copy, PartialEq, Eq, Structural, Debug)]
pub enum ConfigError {
    /// The card number already has an entry with a non-empty identity.
    AlreadyExists,
    /// The card number has no entry.
    NotFound,
}

/// Index of the first entry from `i` on whose card number equals `number`.
pub open spec fn find_card_from(cards: Seq<CardEntryV>, number: Seq<char>, i: int) -> Option<int>
    decreases cards.len() - i,
{
    if i < 0 || i >= cards.len() {
        None
    } else if cards[i].card_number == number {
        Some(i)
    } else {
        find_card_from(cards, number, i + 1)
    }
}

/// Updates the card mapping with a card's identity: a new entry is added
/// for an unknown card number; an entry holding an empty identity (a
/// provisioned but unread card) is filled in; an entry whose identity is
/// already set is left alone and reported as existing.
pub fn update_card_config(
    config: &mut ConfigurationFile,
    iccid: &str,
    cardnumber: &str,
    expire: Option<u64>,
) -> (r: Result<(), ConfigError>)
    ensures
        final(config).name == old(config).name,
        final(config).version == old(config).version,
        final(config).description == old(config).description,
        final(config).appearance == old(config).appearance,
        ident_of(&final(config).ident) == ident_of(&old(config).ident),
        server_host_of(&final(config).server) == server_host_of(&old(config).server),
        match find_card_from(cards_view(old(config).cards@), cardnumber@, 0) {
            None => r == Ok::<(), ConfigError>(()) && cards_view(final(config).cards@)
                == cards_view(old(config).cards@).push(
                (CardEntryV { card_number: cardnumber@, iccid: iccid@, expire }),
            ),
            Some(idx) => {
                if cards_view(old(config).cards@)[idx].iccid.len() == 0 {
                    r == Ok::<(), ConfigError>(()) && cards_view(final(config).cards@)
                        == cards_view(old(config).cards@).update(
                        idx,
                        (CardEntryV {
                            card_number: cards_view(old(config).cards@)[idx].card_number,
                            iccid: iccid@,
                            expire,
                        }),
                    )
                } else {
                    r == Err::<(), ConfigError>(ConfigError::AlreadyExists) && final(config).cards@
                        == old(config).cards@
                }
            },
        },
{
    let mut i: usize = 0;
    while i < config.cards.len()
        invariant
            i <= config.cards@.len(),
            *config == *old(config),
            find_card_from(cards_view(config.cards@), cardnumber@, 0) == find_card_from(
                cards_view(config.cards@),
                cardnumber@,
                i as int,
            ),
        decreases config.cards@.len() - i,
    {
        if str_eq(config.cards[i].card_number.as_str(), cardnumber) {
            assert(cards_view(config.cards@)[i as int].card_number == cardnumber@);
            if config.cards[i].config.iccid.as_str().is_empty() {
                let entry = config.cards.remove(i);
                let updated = CardEntry {
                    card_number: entry.card_number,
                    config: CardConfig { iccid: iccid.to_owned(), expire },
                };
                config.cards.insert(i, updated);
                proof {
                    assert(cards_view(config.cards@) =~= cards_view(old(config).cards@).update(
                        i as int,
                        (CardEntryV {
                            card_number: cards_view(old(config).cards@)[i as int].card_number,
                            iccid: iccid@,
                            expire,
                        }),
                    ));
                }
                return Ok(());
            } else {
                return Err(ConfigError::AlreadyExists);
            }
        }
        assert(cards_view(config.cards@)[i as int].card_number != cardnumber@);
        i += 1;
    }
    config.cards.push(
        CardEntry { card_number: cardnumber.to_owned(), config: CardConfig { iccid: iccid.to_owned(), expire } },
    );
    proof {
        assert(cards_view(config.cards@) =~= cards_view(old(config).cards@).push(
            (CardEntryV { card_number: cardnumber@, iccid: iccid@, expire }),
        ));
    }
    Ok(())
}

/// Removes one card number from the mapping.  An absent card number is an
/// error for the caller to report; the mapping is left unchanged then.
pub fn remove_card_from_config(config: &mut ConfigurationFile, cardnumber: &str) -> (r: Result<
    (),
    ConfigError,
>)
    ensures
        final(config).name == old(config).name,
        final(config).version == old(config).version,
        final(config).description == old(config).description,
        final(config).appearance == old(config).appearance,
        ident_of(&final(config).ident) == ident_of(&old(config).ident),
        server_host_of(&final(config).server) == server_host_of(&old(config).server),
        match find_card_from(cards_view(old(config).cards@), cardnumber@, 0) {
            Some(idx) => r == Ok::<(), ConfigError>(()) && cards_view(final(config).cards@)
                == cards_view(old(config).cards@).remove(idx),
            None => r == Err::<(), ConfigError>(ConfigError::NotFound) && final(config).cards@
                == old(config).cards@,
        },
{
    let mut i: usize = 0;
    while i < config.cards.len()
        invariant
            i <= config.cards@.len(),
            *config == *old(config),
            find_card_from(cards_view(config.cards@), cardnumber@, 0) == find_card_from(
                cards_view(config.cards@),
                cardnumber@,
                i as int,
            ),
        decreases config.cards@.len() - i,
    {
        if str_eq(config.cards[i].card_number.as_str(), cardnumber) {
            assert(cards_view(config.cards@)[i as int].card_number == cardnumber@);
            let _ = config.cards.remove(i);
            proof {
                assert(cards_view(config.cards@) =~= cards_view(old(config).cards@).remove(
                    i as int,
                ));
            }
            return Ok(());
        }
        assert(cards_view(config.cards@)[i as int].card_number != cardnumber@);
        i += 1;
    }
    Err(ConfigError::NotFound)
}

/// Replaces the server address, ident and appearance of the configuration;
/// an unrecognised theme label falls back to Auto.  The card mapping is
/// untouched.
pub fn update_server_config(config: &mut ConfigurationFile, host: &str, ident: &str, theme: &str)
    ensures
        final(config).name == old(config).name,
        final(config).version == old(config).version,
        final(config).description == old(config).description,
        final(config).cards@ == old(config).cards@,
        server_host_of(&final(config).server) == Some(host@),
        ident_of(&final(config).ident) == Some(ident@),
        theme_of(&final(config).appearance) == Some(theme_of_label(theme@)),
{
    config.server = Some(ServerConfig { host: host.to_owned() });
    config.ident = Some(ident.to_owned());
    let dark_theme = if str_eq(theme, "Dark") {
        DarkTheme::Dark
    } else if str_eq(theme, "Light") {
        DarkTheme::Light
    } else {
        DarkTheme::Auto
    };
    config.appearance = Some(AppearanceConfig { dark_theme });
}

/// Builds the lookup cache from a loaded configuration: the cards, server,
/// ident and appearance are carried over unchanged.
pub fn load_config_to_cache(config: &ConfigurationFile) -> (cache: CacheConfigData)
    ensures
        cache@.cards == cards_view(config.cards@),
        cache@.server_host == server_host_of(&config.server),
        cache@.ident == ident_of(&config.ident),
        cache@.theme == theme_of(&config.appearance),
{
    let mut cards: Vec<CardEntry> = Vec::new();
    let mut i: usize = 0;
    while i < config.cards.len()
        invariant
            i <= config.cards@.len(),
            cards_view(cards@) == cards_view(config.cards@).subrange(0, i as int),
        decreases config.cards@.len() - i,
    {
        let ghost before = cards@;
        let e = &config.cards[i];
        let entry = CardEntry {
            card_number: e.card_number.clone(),
            config: CardConfig { iccid: e.config.iccid.clone(), expire: e.config.expire },
        };
        proof {
            assert(entry@ == config.cards@[i as int]@);
        }
        cards.push(entry);
        proof {
            assert(cards_view(before).len() == before.len());
            assert(before.len() == i);
            assert(cards_view(cards@) =~= cards_view(config.cards@).subrange(0, i + 1)) by {
                assert(forall|k: int|
                    0 <= k < cards@.len() ==> cards_view(cards@)[k] == (#[trigger] cards@[k])@);
                assert(forall|k: int|
                    0 <= k < i ==> cards_view(before)[k] == (#[trigger] before[k])@);
                assert(forall|k: int| 0 <= k < i ==> (#[trigger] cards@[k]) == before[k]);
                assert(cards@[i as int] == entry);
                assert(forall|k: int|
                    0 <= k < i + 1 ==> cards_view(config.cards@).subrange(0, i + 1)[k] == (
                    #[trigger] config.cards@[k])@);
            }
        }
        i += 1;
    }
    proof {
        assert(cards_view(config.cards@).subrange(0, config.cards@.len() as int) =~= cards_view(
            config.cards@,
        ));
    }
    let server = match &config.server {
        Some(s) => Some(ServerConfig { host: s.host.clone() }),
        None => None,
    };
    let ident = match &config.ident {
        Some(s) => Some(s.clone()),
        None => None,
    };
    let appearance = match &config.appearance {
        Some(a) => Some(AppearanceConfig { dark_theme: a.dark_theme }),
        None => None,
    };
    CacheConfigData { cards, server, ident, appearance }
}

/// The characters of an ident: the fixed prefix and thirteen decimal
/// digits, zero padded, of a microsecond timestamp reduced modulo 10^12.
pub open spec fn ident_chars(micros: u64) -> Seq<char> {
    let m = (micros as nat) % 1000000000000nat;
    let digits = crate::strutil::dec_bytes(m);
    if digits.len() <= 13 {
        "TBA"@ + chars_of_ascii(Seq::new((13 - digits.len()) as nat, |k: int| 48u8) + digits)
    } else {
        "TBA"@ + chars_of_ascii(digits)
    }
}

/// Generates an ident in the shape "TBA" followed by thirteen digits, from
/// a microsecond timestamp.  The caller reads the clock.
pub fn generate_ident(micros: u64) -> (r: String)
    ensures
        r@ == ident_chars(micros),
{
    let m = micros % 1000000000000u64;
    let mut digits: Vec<u8> = Vec::new();
    crate::strutil::push_dec(&mut digits, m);
    proof {
        reveal_with_fuel(crate::strutil::pow10, 13);
        assert(crate::strutil::pow10(12nat) == 1000000000000nat);
        crate::strutil::lemma_dec_bytes_len(m as nat, 12nat);
        crate::strutil::lemma_dec_bytes_ascii(m as nat);
        assert(m as nat == (micros as nat) % 1000000000000nat);
    }
    let mut padded: Vec<u8> = Vec::new();
    let mut k: usize = digits.len();
    while k < 13
        invariant
            digits@ == crate::strutil::dec_bytes((micros as nat) % 1000000000000nat),
            digits@.len() <= k <= 13,
            padded@ == Seq::new((k - digits@.len()) as nat, |j: int| 48u8),
        decreases 13 - k,
    {
        padded.push(48);
        assert(padded@ =~= Seq::new((k + 1 - digits@.len()) as nat, |j: int| 48u8));
        k += 1;
    }
    crate::strutil::push_all(&mut padded, &digits);
    proof {
        crate::strutil::lemma_dec_bytes_ascii((micros as nat) % 1000000000000nat);
        assert(forall|j: int| 0 <= j < padded@.len() ==> padded@[j] < 0x80);
    }
    let mut r = String::from_str("TBA");
    let tail = crate::hexutil::ascii_to_string(padded);
    r.append(tail.as_str());
    proof {
        assert(r@ =~= ident_chars(micros));
    }
    r
}

/// The default configuration: the fixed application name and description,
/// the given version, the automatic theme, a fresh ident derived from the
/// clock value, no server and no cards.
pub fn generate_default_config(version: &str, ident_micros: u64) -> (r: ConfigurationFile)
    ensures
        r.name@ == "Tacho Bridge Application"@,
        r.version@ == version@,
        r.description@ == "Application for the tachograph cards authentication"@,
        theme_of(&r.appearance) == Some(DarkTheme::Auto),
        ident_of(&r.ident) == Some(ident_chars(ident_micros)),
        server_host_of(&r.server) is None,
        r.cards@ == Seq::<CardEntry>::empty(),
{
    ConfigurationFile {
        name: String::from_str("Tacho Bridge Application"),
        version: version.to_owned(),
        description: String::from_str("Application for the tachograph cards authentication"),
        appearance: Some(AppearanceConfig { dark_theme: DarkTheme::Auto }),
        ident: Some(generate_ident(ident_micros)),
        server: None,
        cards: Vec::new(),
    }
}

/// The trace line of one card entry.
pub open spec fn card_line(e: CardEntryV) -> Seq<char> {
    "CN: "@ + e.card_number + " | ICCID: "@ + e.iccid + " | Expire: "@ + dec_chars(
        (match e.expire {
            Some(x) => x,
            None => 0,
        }) as nat,
    )
}

/// The trace lines of the whole cache: one line per card, the ident when
/// set, and one line each for the server and the appearance.
pub open spec fn trace_lines(c: CacheV) -> Seq<Seq<char>> {
    c.cards.map_values(|e: CardEntryV| card_line(e)) + (match c.ident {
        Some(i) => seq!["ident: "@ + i],
        None => Seq::<Seq<char>>::empty(),
    }) + seq![
        match c.server_host {
            Some(h) => "Server Host: "@ + h,
            None => "No server configuration found."@,
        },
        match c.theme {
            Some(t) => "Appearance: "@ + theme_label(t),
            None => "No appearance configuration found."@,
        },
    ]
}

/// Renders the cache for the trace log, one line per returned element.
pub fn trace_cache(cache: &CacheConfigData) -> (lines: Vec<String>)
    ensures
        lines@.map_values(|s: String| s@) == trace_lines(cache@),
{
    let mut lines: Vec<String> = Vec::new();
    let mut i: usize = 0;
    while i < cache.cards.len()
        invariant
            i <= cache.cards@.len(),
            lines@.map_values(|s: String| s@) == cards_view(cache.cards@).subrange(
                0,
                i as int,
            ).map_values(|e: CardEntryV| card_line(e)),
        decreases cache.cards@.len() - i,
    {
        let e = &cache.cards[i];
        let mut line = String::from_str("CN: ");
        line.append(e.card_number.as_str());
        line.append(" | ICCID: ");
        line.append(e.config.iccid.as_str());
        line.append(" | Expire: ");
        let expire = match e.config.expire {
            Some(x) => x,
            None => 0,
        };
        let expire_text = u64_to_string(expire);
        line.append(expire_text.as_str());
        assert(line@ == card_line(cards_view(cache.cards@)[i as int]));
        let ghost before = lines@;
        let ghost line_v = line@;
        lines.push(line);
        proof {
            assert(before.map_values(|s2: String| s2@).len() == before.len());
            assert(before.len() == i);
            assert(lines@.map_values(|s2: String| s2@) =~= cards_view(cache.cards@).subrange(
                0,
                i + 1,
            ).map_values(|e2: CardEntryV| card_line(e2))) by {
                assert(forall|k: int|
                    0 <= k < lines@.len() ==> lines@.map_values(|s2: String| s2@)[k] == (
                    #[trigger] lines@[k])@);
                assert(forall|k: int|
                    0 <= k < i ==> before.map_values(|s2: String| s2@)[k] == (
                    #[trigger] before[k])@);
                assert(forall|k: int| 0 <= k < i ==> (#[trigger] lines@[k]) == before[k]);
                assert(lines@[i as int]@ == line_v);
                assert(forall|k: int|
                    0 <= k < i + 1 ==> cards_view(cache.cards@).subrange(0, i + 1).map_values(
                        |e2: CardEntryV| card_line(e2),
                    )[k] == card_line(#[trigger] cards_view(cache.cards@).subrange(0, i + 1)[k]));
            }
        }
        i += 1;
    }
    proof {
        assert(cards_view(cache.cards@).subrange(0, cache.cards@.len() as int) =~= cards_view(
            cache.cards@,
        ));
    }
    match &cache.ident {
        Some(ident) => {
            let mut line = String::from_str("ident: ");
            line.append(ident.as_str());
            lines.push(line);
        },
        None => {},
    }
    match &cache.server {
        Some(server) => {
            let mut line = String::from_str("Server Host: ");
            line.append(server.host.as_str());
            lines.push(line);
        },
        None => {
            lines.push(String::from_str("No server configuration found."));
        },
    }
    match &cache.appearance {
        Some(appearance) => {
            let mut line = String::from_str("Appearance: ");
            let label = theme_label_string(appearance.dark_theme);
            line.append(label.as_str());
            lines.push(line);
        },
        None => {
            lines.push(String::from_str("No appearance configuration found."));
        },
    }
    proof {
        assert(lines@.map_values(|s: String| s@) =~= trace_lines(cache@));
    }
    lines
}

} // verus!
