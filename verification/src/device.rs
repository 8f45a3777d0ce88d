//! The capability decoder: turns one resolved discovery record (service
//! name, addresses, port, key/value text properties) into a typed
//! [`DeviceRecord`].

use vstd::prelude::*;
use crate::mask::{DecodeError, decode_mask, parse_hex, spec_decode_mask, spec_parse_hex};
use crate::strutil::{
    contains_seq, find_first, lemma_find_first_characterization, str_contains, str_ends_with,
    str_eq, str_find,
};

verus! {

/// Capability bit: video playback.
pub const FEATURE_VIDEO: u64 = 0;

/// Capability bit: photo display.
pub const FEATURE_PHOTO: u64 = 1;

/// Capability bit: slideshow display.
pub const FEATURE_SLIDESHOW: u64 = 5;

/// Capability bit: screen mirroring.
pub const FEATURE_SCREEN_MIRRORING: u64 = 7;

/// Capability bit: audio streaming.
pub const FEATURE_AUDIO: u64 = 9;

/// Capability bit: first advertised audio format (set means ALAC).
pub const FEATURE_AUDIO_FORMAT_1: u64 = 19;

/// Capability bit: buffered-audio support.
pub const FEATURE_BUFFERED_AUDIO: u64 = 40;

/// Capability bit: transient-pairing support.
pub const FEATURE_TRANSIENT_PAIRING: u64 = 48;

/// Status bit: a problem was detected on the receiver.
pub const STATUS_PROBLEM_DETECTED: u64 = 0;

/// Status bit: the receiver is not yet configured.
pub const STATUS_NOT_CONFIGURED: u64 = 1;

/// Status bit: an audio cable is attached.
pub const STATUS_AUDIO_CABLE_ATTACHED: u64 = 2;

/// Status bit: a PIN is required to connect.
pub const STATUS_PIN_REQUIRED: u64 = 3;

/// Status bit: a password is required to connect.
pub const STATUS_PASSWORD_REQUIRED: u64 = 5;

/// Status bit: one-time pairing is required to connect.
pub const STATUS_ONE_TIME_PAIRING_REQUIRED: u64 = 7;

/// Whether bit `bit` of `mask` is set.
pub open spec fn spec_bit(mask: u64, bit: u64) -> bool {
    (mask >> bit) & 1 == 1
}

/// Whether bit `bit` of `mask` is set.
pub fn mask_bit(mask: u64, bit: u64) -> (r: bool)
    requires
        bit < 64,
    ensures
        r == spec_bit(mask, bit),
{
    (mask >> bit) & 1 == 1
}

/// The advertised capability bitmask: independent boolean feature flags.
#[derive(Clone, Copy, Debug, PartialEq, Eq, Structural)]
pub struct Features {
    pub bits: u64,
}

impl Features {
    /// Whether capability bit `bit` is set.
    pub fn has(self, bit: u64) -> (r: bool)
        requires
            bit < 64,
        ensures
            r == spec_bit(self.bits, bit),
    {
        mask_bit(self.bits, bit)
    }
}

/// The advertised status bitmask: independent transient receiver state.
#[derive(Clone, Copy, Debug, PartialEq, Eq, Structural)]
pub struct Status {
    pub bits: u64,
}

impl Status {
    /// Whether status bit `bit` is set.
    pub fn has(self, bit: u64) -> (r: bool)
        requires
            bit < 64,
        ensures
            r == spec_bit(self.bits, bit),
    {
        mask_bit(self.bits, bit)
    }
}

/// Audio sample encodings a receiver accepts.
#[derive(Clone, Copy, Debug, PartialEq, Eq, Structural)]
pub enum AudioEncoding {
    Pcm,
    Alac,
}

/// Connection security a receiver demands. `Open` means no PIN and no
/// password is required.
#[derive(Clone, Copy, Debug, PartialEq, Eq, Structural)]
pub enum AirplaySecurity {
    Open,
    Pin,
    Password,
}

/// Security derivation from the three status inputs. The table is
/// deliberately non-orthogonal: a password demand combined with either PIN
/// input yields `Open`; receivers in the wild rely on this exact precedence.
pub open spec fn spec_security(password: bool, pin: bool, one_time_pairing: bool) -> AirplaySecurity {
    if password && !pin && !one_time_pairing {
        AirplaySecurity::Password
    } else if !password && (pin || one_time_pairing) {
        AirplaySecurity::Pin
    } else {
        AirplaySecurity::Open
    }
}

/// Derives the demanded security from the password, PIN and one-time-pairing
/// signals, in the fixed precedence of [`spec_security`].
pub fn derive_security(password: bool, pin: bool, one_time_pairing: bool) -> (r: AirplaySecurity)
    ensures
        r == spec_security(password, pin, one_time_pairing),
{
    if password && !pin && !one_time_pairing {
        AirplaySecurity::Password
    } else if !password && (pin || one_time_pairing) {
        AirplaySecurity::Pin
    } else {
        AirplaySecurity::Open
    }
}

/// `s` with `suffix` removed from its end, when it ends with `suffix`.
pub open spec fn spec_strip_suffix(s: Seq<char>, suffix: Seq<char>) -> Seq<char> {
    if s.len() >= suffix.len() && s.subrange(s.len() - suffix.len(), s.len() as int) == suffix {
        s.take(s.len() - suffix.len())
    } else {
        s
    }
}

/// `s` with everything up to and including its first `@` removed.
pub open spec fn spec_after_at(s: Seq<char>) -> Seq<char> {
    match find_first(s, '@') {
        None => s,
        Some(i) => s.skip(i + 1),
    }
}

/// Normalized display name: the two service-type suffixes are stripped, and
/// a leading identifier up to the first `@` is discarded.
pub open spec fn spec_normalize_name(s: Seq<char>) -> Seq<char> {
    spec_after_at(
        spec_strip_suffix(spec_strip_suffix(s, "._raop._tcp.local."@), "._airplay._tcp.local."@),
    )
}

/// Whether a full service name advertises the protocol-v2 service type
/// rather than the legacy audio-only type.
pub open spec fn spec_is_v2_name(s: Seq<char>) -> bool {
    s.len() >= "._airplay._tcp.local."@.len() && s.subrange(
        s.len() - "._airplay._tcp.local."@.len(),
        s.len() as int,
    ) == "._airplay._tcp.local."@
}

fn strip_suffix_exec<'a>(s: &'a str, suffix: &str) -> (r: &'a str)
    ensures
        r@ == spec_strip_suffix(s@, suffix@),
{
    if str_ends_with(s, suffix) {
        let n = s.unicode_len();
        let sn = suffix.unicode_len();
        let r = s.substring_char(0, n - sn);
        proof {
            assert(r@ =~= s@.take(s@.len() - suffix@.len()));
        }
        r
    } else {
        s
    }
}

/// Normalizes an advertised full service name into a display name.
pub fn normalize_name<'a>(full_name: &'a str) -> (r: &'a str)
    ensures
        r@ == spec_normalize_name(full_name@),
{
    let stripped = strip_suffix_exec(
        strip_suffix_exec(full_name, "._raop._tcp.local."),
        "._airplay._tcp.local.",
    );
    match str_find(stripped, '@') {
        None => stripped,
        Some(i) => {
            proof {
                lemma_find_first_characterization(stripped@, '@');
            }
            let n = stripped.unicode_len();
            let r = stripped.substring_char(i + 1, n);
            proof {
                assert(r@ =~= stripped@.skip(i + 1));
            }
            r
        },
    }
}

/// Whether the advertised full service name is of the protocol-v2 type.
pub fn is_v2_name(full_name: &str) -> (r: bool)
    ensures
        r == spec_is_v2_name(full_name@),
{
    str_ends_with(full_name, "._airplay._tcp.local.")
}

/// Whether `tok` occurs as one element of the comma-separated list `s`.
pub open spec fn spec_has_token(s: Seq<char>, tok: Seq<char>) -> bool
    decreases s.len(),
{
    match find_first(s, ',') {
        None => s == tok,
        Some(i) => {
            if 0 <= i < s.len() {
                s.take(i) == tok || spec_has_token(s.skip(i + 1), tok)
            } else {
                false
            }
        },
    }
}

/// Whether `tok` occurs as one element of the comma-separated list `s`.
pub fn has_token(s: &str, tok: &str) -> (r: bool)
    ensures
        r == spec_has_token(s@, tok@),
    decreases s@.len(),
{
    match str_find(s, ',') {
        None => str_eq(s, tok),
        Some(i) => {
            proof {
                lemma_find_first_characterization(s@, ',');
            }
            let n = s.unicode_len();
            let head = s.substring_char(0, i);
            proof {
                assert(head@ =~= s@.take(i as int));
            }
            if str_eq(head, tok) {
                true
            } else {
                let rest = s.substring_char(i + 1, n);
                proof {
                    assert(rest@ =~= s@.skip(i + 1));
                }
                has_token(rest, tok)
            }
        },
    }
}

/// First value stored under `key` in the property list, if any.
pub open spec fn spec_lookup(props: Seq<(String, String)>, key: Seq<char>) -> Option<Seq<char>>
    decreases props.len(),
{
    if props.len() == 0 {
        None
    } else if props[0].0@ == key {
        Some(props[0].1@)
    } else {
        spec_lookup(props.drop_first(), key)
    }
}

/// Value stored under `primary`, or else under `alternate`, if either is.
pub open spec fn spec_lookup_either(
    props: Seq<(String, String)>,
    primary: Seq<char>,
    alternate: Seq<char>,
) -> Option<Seq<char>> {
    match spec_lookup(props, primary) {
        Some(v) => Some(v),
        None => spec_lookup(props, alternate),
    }
}

/// Finds the first value stored under `key` in the property list.
pub fn lookup<'a>(props: &'a Vec<(String, String)>, key: &str) -> (r: Option<&'a str>)
    ensures
        match r {
            None => spec_lookup(props@, key@) is None,
            Some(v) => spec_lookup(props@, key@) == Some(v@),
        },
{
    let n = props.len();
    let mut i: usize = 0;
    proof {
        assert(props@.skip(0) =~= props@);
    }
    while i < n
        invariant
            n == props@.len(),
            0 <= i <= n,
            spec_lookup(props@, key@) == spec_lookup(props@.skip(i as int), key@),
        decreases n - i,
    {
        let pair = &props[i];
        proof {
            assert(props@.skip(i as int)[0] == props@[i as int]);
        }
        if str_eq(pair.0.as_str(), key) {
            return Some(pair.1.as_str());
        }
        proof {
            assert(props@.skip(i as int).drop_first() =~= props@.skip(i + 1));
        }
        i = i + 1;
    }
    proof {
        assert(props@.skip(n as int) =~= Seq::<(String, String)>::empty());
    }
    None
}

/// The capability mask a property list advertises under `features`/`ft`:
/// all-zero when the key is missing, `None` when its value is malformed.
pub open spec fn spec_features_mask(props: Seq<(String, String)>) -> Option<u64> {
    match spec_lookup_either(props, "features"@, "ft"@) {
        None => Some(0u64),
        Some(v) => spec_decode_mask(v),
    }
}

/// The status mask a property list advertises under `flags`/`sf` (a single
/// hexadecimal value): all-zero when missing, `None` when malformed.
pub open spec fn spec_status_mask(props: Seq<(String, String)>) -> Option<u64> {
    match spec_lookup_either(props, "flags"@, "sf"@) {
        None => Some(0u64),
        Some(v) => spec_parse_hex(v),
    }
}

/// Model-quirk rule: the advertised model names a known ALAC-only receiver.
pub open spec fn spec_model_forces_alac(model: Seq<char>) -> bool {
    contains_seq(model, "AirPort"@) || contains_seq(model, "AppleTV3,"@)
}

/// Model-quirk rule: the advertised model names a third-party relay
/// implementation that cannot negotiate protocol-v2 timing.
pub open spec fn spec_model_is_relay(model: Seq<char>) -> bool {
    contains_seq(model, "Shairport"@)
}

/// Checks the advertised model against the ALAC-only rules of the quirk
/// table, in order: `AirPort`, then `AppleTV3,`.
pub fn model_forces_alac(model: &str) -> (r: bool)
    ensures
        r == spec_model_forces_alac(model@),
{
    str_contains(model, "AirPort") || str_contains(model, "AppleTV3,")
}

/// Checks the advertised model against the relay rule of the quirk table:
/// `Shairport`.
pub fn model_is_relay(model: &str) -> (r: bool)
    ensures
        r == spec_model_is_relay(model@),
{
    str_contains(model, "Shairport")
}

/// The audio encoding a record advertises, given its capability mask:
/// capability bit [`FEATURE_AUDIO_FORMAT_1`] selects ALAC over PCM; a `cn`
/// list holding token `0` overrides to PCM; a known ALAC-only model or an
/// `sv` value containing `false` overrides to ALAC with highest precedence.
pub open spec fn spec_encoding(mask: u64, props: Seq<(String, String)>) -> AudioEncoding {
    let base = if spec_bit(mask, FEATURE_AUDIO_FORMAT_1) {
        AudioEncoding::Alac
    } else {
        AudioEncoding::Pcm
    };
    let cn_pcm = match spec_lookup(props, "cn"@) {
        Some(v) => spec_has_token(v, "0"@),
        None => false,
    };
    let alac_override = (match spec_lookup(props, "am"@) {
        Some(m) => spec_model_forces_alac(m),
        None => false,
    }) || (match spec_lookup(props, "sv"@) {
        Some(v) => contains_seq(v, "false"@),
        None => false,
    });
    if alac_override {
        AudioEncoding::Alac
    } else if cn_pcm {
        AudioEncoding::Pcm
    } else {
        base
    }
}

/// Sonos compatibility: the `manufacturer` value contains `Sonos`, or the
/// `et` list holds the vendor-specific encryption token `4`.
pub open spec fn spec_sonos_flag(props: Seq<(String, String)>) -> bool {
    (match spec_lookup(props, "manufacturer"@) {
        Some(v) => contains_seq(v, "Sonos"@),
        None => false,
    }) || (match spec_lookup(props, "et"@) {
        Some(v) => spec_has_token(v, "4"@),
        None => false,
    })
}

/// The security a record demands, derived from its status mask and the
/// textual `pw` property through [`spec_security`].
pub open spec fn spec_security_of(status: u64, props: Seq<(String, String)>) -> AirplaySecurity {
    let pw_true = match spec_lookup(props, "pw"@) {
        Some(v) => contains_seq(v, "true"@),
        None => false,
    };
    spec_security(
        spec_bit(status, STATUS_PASSWORD_REQUIRED) || pw_true,
        spec_bit(status, STATUS_PIN_REQUIRED),
        spec_bit(status, STATUS_ONE_TIME_PAIRING_REQUIRED),
    )
}

/// Decodes an advertised `features`/`ft` value into the capability mask.
pub fn decode_features(s: &str) -> (r: Result<Features, DecodeError>)
    ensures
        match r {
            Ok(f) => spec_decode_mask(s@) == Some(f.bits),
            Err(e) => spec_decode_mask(s@) is None && e == DecodeError::BadFeatures,
        },
{
    match decode_mask(s) {
        Some(bits) => Ok(Features { bits }),
        None => Err(DecodeError::BadFeatures),
    }
}

/// Decodes an advertised `flags`/`sf` value (a single hexadecimal string)
/// into the status mask.
pub fn decode_status(s: &str) -> (r: Result<Status, DecodeError>)
    ensures
        match r {
            Ok(f) => spec_parse_hex(s@) == Some(f.bits),
            Err(e) => spec_parse_hex(s@) is None && e == DecodeError::BadFlags,
        },
{
    match parse_hex(s) {
        Some(bits) => Ok(Status { bits }),
        None => Err(DecodeError::BadFlags),
    }
}

/// The decoded capability model for one discovered receiver. Immutable once
/// constructed.
#[derive(Clone, Debug)]
pub struct DeviceRecord {
    /// Always true once the record is constructed.
    pub active: bool,
    /// Whether the receiver accepts audio streams.
    pub audio_supported: bool,
    /// Normalized display name.
    pub name: String,
    /// First advertised IPv4 address, in dotted text form.
    pub host: String,
    /// Advertised port.
    pub port: u16,
    /// Whether the receiver advertises the protocol-v2 service type.
    pub supports_protocol_v2: bool,
    /// Audio encoding the receiver expects.
    pub encoding: AudioEncoding,
    /// Security the receiver demands.
    pub security: AirplaySecurity,
    /// Whether capability bit [`FEATURE_TRANSIENT_PAIRING`] is set.
    pub transient_pairing_supported: bool,
    /// Whether the receiver looks like a Sonos implementation.
    pub sonos_compatibility_flag: bool,
}

/// Decodes one resolved service record into a [`DeviceRecord`].
///
/// A malformed `features`/`ft` or `flags`/`sf` value fails this one record
/// with a [`DecodeError`]; every other property is optional and a missing
/// mask key counts as all-zero.
pub fn decode_device(
    full_name: &str,
    addresses: &Vec<String>,
    port: u16,
    props: &Vec<(String, String)>,
) -> (r: Result<DeviceRecord, DecodeError>)
    requires
        addresses@.len() > 0,
    ensures
        r is Ok <==> (spec_features_mask(props@) is Some && spec_status_mask(props@) is Some),
        r is Err ==> r->Err_0 == (if spec_features_mask(props@) is None {
            DecodeError::BadFeatures
        } else {
            DecodeError::BadFlags
        }),
        r matches Ok(rec) ==> {
            let mask = spec_features_mask(props@)->Some_0;
            let status = spec_status_mask(props@)->Some_0;
            &&& rec.active == true
            &&& rec.audio_supported == (mask == 0 || spec_bit(mask, FEATURE_AUDIO))
            &&& rec.name@ == spec_normalize_name(full_name@)
            &&& rec.host@ == addresses@[0]@
            &&& rec.port == port
            &&& rec.supports_protocol_v2 == (spec_is_v2_name(full_name@) && !(
            match spec_lookup(props@, "am"@) {
                Some(m) => spec_model_is_relay(m),
                None => false,
            }))
            &&& rec.encoding == spec_encoding(mask, props@)
            &&& rec.security == spec_security_of(status, props@)
            &&& rec.transient_pairing_supported == spec_bit(mask, FEATURE_TRANSIENT_PAIRING)
            &&& rec.sonos_compatibility_flag == spec_sonos_flag(props@)
        },
{
    let features = match lookup_either(props, "features", "ft") {
        None => Features { bits: 0 },
        Some(v) => match decode_mask(v) {
            Some(bits) => Features { bits },
            None => {
                return Err(DecodeError::BadFeatures);
            },
        },
    };
    let status = match lookup_either(props, "flags", "sf") {
        None => Status { bits: 0 },
        Some(v) => match parse_hex(v) {
            Some(bits) => Status { bits },
            None => {
                return Err(DecodeError::BadFlags);
            },
        },
    };
    let model_alac: bool;
    let model_relay: bool;
    match lookup(props, "am") {
        Some(m) => {
            model_alac = model_forces_alac(m);
            model_relay = model_is_relay(m);
        },
        None => {
            model_alac = false;
            model_relay = false;
        },
    }
    let cn_pcm = match lookup(props, "cn") {
        Some(v) => has_token(v, "0"),
        None => false,
    };
    let sv_false = match lookup(props, "sv") {
        Some(v) => str_contains(v, "false"),
        None => false,
    };
    let base_alac = features.has(FEATURE_AUDIO_FORMAT_1);
    let encoding = if model_alac || sv_false {
        AudioEncoding::Alac
    } else if cn_pcm {
        AudioEncoding::Pcm
    } else if base_alac {
        AudioEncoding::Alac
    } else {
        AudioEncoding::Pcm
    };
    let pw_true = match lookup(props, "pw") {
        Some(v) => str_contains(v, "true"),
        None => false,
    };
    let security = derive_security(
        status.has(STATUS_PASSWORD_REQUIRED) || pw_true,
        status.has(STATUS_PIN_REQUIRED),
        status.has(STATUS_ONE_TIME_PAIRING_REQUIRED),
    );
    let sonos = match lookup(props, "manufacturer") {
        Some(v) => str_contains(v, "Sonos"),
        None => false,
    } || match lookup(props, "et") {
        Some(v) => has_token(v, "4"),
        None => false,
    };
    let audio_supported = if features.bits == 0 {
        true
    } else {
        features.has(FEATURE_AUDIO)
    };
    Ok(
        DeviceRecord {
            active: true,
            audio_supported,
            name: String::from_str(normalize_name(full_name)),
            host: addresses[0].clone(),
            port,
            supports_protocol_v2: is_v2_name(full_name) && !model_relay,
            encoding,
            security,
            transient_pairing_supported: features.has(FEATURE_TRANSIENT_PAIRING),
            sonos_compatibility_flag: sonos,
        },
    )
}

/// Finds the value stored under `primary`, or else under `alternate`.
pub fn lookup_either<'a>(
    props: &'a Vec<(String, String)>,
    primary: &str,
    alternate: &str,
) -> (r: Option<&'a str>)
    ensures
        match r {
            None => spec_lookup_either(props@, primary@, alternate@) is None,
            Some(v) => spec_lookup_either(props@, primary@, alternate@) == Some(v@),
        },
{
    match lookup(props, primary) {
        Some(v) => Some(v),
        None => lookup(props, alternate),
    }
}

} // verus!
