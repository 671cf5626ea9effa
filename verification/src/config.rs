//! Build configuration of the station: networks, server and key, read from a
//! TOML document, and the constants that the build compiles in.

use vstd::prelude::*;

use crate::text;

verus! {

/// Longest network name, in bytes.
pub const SSID_MAX_BYTES: usize = 32;

/// Longest password, in bytes.
pub const PASSWD_MAX_BYTES: usize = 64;

/// Configuration of the station.
pub struct FirmwareConfig {
    /// Names and passwords: the main network, and perhaps a second one.
    pub wifi_networks: Vec<(String, String)>,
    pub server_ip: [u8; 4],
    pub server_port: u16,
    pub secret_key: [u8; 16],
}

/// A key of the document.
#[derive(Clone, Copy, PartialEq, Eq, Structural, Debug)]
pub enum Key {
    WifiSsid,
    WifiPasswd,
    Wifi2Ssid,
    Wifi2Passwd,
    ServerIp,
    ServerPort,
    SecretKey,
}

/// Why a document is not a configuration.
#[derive(Clone, Copy, PartialEq, Eq, Structural, Debug)]
pub enum ConfigError {
    /// Not TOML.
    InvalidToml,
    /// A key is missing, or its value is of the wrong type.
    BadField(Key),
    /// Only one of the two keys of the second network is there: half a network
    /// would silently not work.
    HalfNetwork,
    /// The server's address is not an IPv4 address.
    BadAddress,
    /// The key is not 32 characters of hexadecimal, in pairs. Each pair is two
    /// digits, or a plus sign and one digit.
    BadKey,
    /// The name of a network is too long.
    SsidTooLong(usize),
    /// The password of a network is too long.
    PasswdTooLong(usize),
}

/// A value of the document.
pub enum Field {
    Missing,
    Text(String),
    Integer(i64),
    Other,
}

/// A value of the document, as the contracts see it.
pub enum FieldView {
    Missing,
    Text(Seq<char>),
    Integer(int),
    Other,
}

impl Field {
    /// As the contracts see it.
    pub open spec fn view(&self) -> FieldView {
        match self {
            Field::Missing => FieldView::Missing,
            Field::Text(s) => FieldView::Text(s@),
            Field::Integer(n) => FieldView::Integer(*n as int),
            Field::Other => FieldView::Other,
        }
    }
}

/// What `toml::from_str` makes of a document, at a key of a section: `None`
/// where the document is not TOML.
pub uninterp spec fn toml_field(doc: Seq<char>, section: Seq<char>, key: Seq<char>) -> Option<FieldView>;

/// Calls `toml::from_str` for a `toml::Value` and looks a key of a section up in
/// it. Claimed of it: whether the document is TOML, and the value found, are a
/// function of document, section and key.
#[verifier::external_body]
pub(crate) fn lookup(doc: &str, section: &str, key: &str) -> (r: Option<Field>)
    ensures
        r is Some <==> toml_field(doc@, section@, key@) is Some,
        r is Some ==> r->0@ == toml_field(doc@, section@, key@)->0,
{
    let value = toml::from_str::<toml::Value>(doc).ok()?;
    Some(match value.get(section).and_then(|table| table.get(key)) {
        None => Field::Missing,
        Some(toml::Value::String(s)) => Field::Text(s.clone()),
        Some(toml::Value::Integer(n)) => Field::Integer(*n),
        Some(_) => Field::Other,
    })
}

/// All the values that a configuration is made of.
pub struct Fields {
    pub wifi_ssid: Field,
    pub wifi_passwd: Field,
    pub wifi2_ssid: Field,
    pub wifi2_passwd: Field,
    pub server_ip: Field,
    pub server_port: Field,
    pub secret_key: Field,
}

/// All the values, as the contracts see them.
pub struct FieldsView {
    pub wifi_ssid: FieldView,
    pub wifi_passwd: FieldView,
    pub wifi2_ssid: FieldView,
    pub wifi2_passwd: FieldView,
    pub server_ip: FieldView,
    pub server_port: FieldView,
    pub secret_key: FieldView,
}

impl Fields {
    /// As the contracts see them.
    pub open spec fn view(&self) -> FieldsView {
        FieldsView {
            wifi_ssid: self.wifi_ssid@,
            wifi_passwd: self.wifi_passwd@,
            wifi2_ssid: self.wifi2_ssid@,
            wifi2_passwd: self.wifi2_passwd@,
            server_ip: self.server_ip@,
            server_port: self.server_port@,
            secret_key: self.secret_key@,
        }
    }
}

/// A configuration, as the contracts see it.
#[verifier::ext_equal]
pub struct ConfigView {
    pub networks: Seq<(Seq<char>, Seq<char>)>,
    pub ip: Seq<u8>,
    pub port: int,
    pub key: Seq<u8>,
}

/// Names and passwords as the contracts see them.
pub open spec fn networks_view(v: Seq<(String, String)>) -> Seq<(Seq<char>, Seq<char>)> {
    Seq::new(v.len(), |i: int| (v[i].0@, v[i].1@))
}

impl FirmwareConfig {
    /// As the contracts see it.
    pub open spec fn view(&self) -> ConfigView {
        ConfigView {
            networks: networks_view(self.wifi_networks@),
            ip: self.server_ip@,
            port: self.server_port as int,
            key: self.secret_key@,
        }
    }
}

/// Bytes of a text.
pub open spec fn bytes_of(s: Seq<char>) -> Seq<u8> {
    vstd::utf8::encode_utf8(s)
}

/// A number up to 255 in decimal digits, as bytes.
#[verifier::opaque]
pub open spec fn octet_text(v: u8) -> Seq<u8> {
    if v < 10 {
        seq![(48 + v) as u8]
    } else if v < 100 {
        seq![(48 + v / 10) as u8, (48 + v % 10) as u8]
    } else {
        seq![(48 + v / 100) as u8, (48 + v / 10 % 10) as u8, (48 + v % 10) as u8]
    }
}

/// Four numbers with dots between them: how an IPv4 address is written.
pub open spec fn dotted(ip: Seq<u8>) -> Seq<u8> {
    octet_text(ip[0]) + seq![46u8] + octet_text(ip[1]) + seq![46u8] + octet_text(ip[2]) + seq![46u8] + octet_text(ip[3])
}

/// The address that a text writes; `None`: it is not exactly an address.
pub open spec fn address_of(s: Seq<u8>) -> Option<Seq<u8>> {
    if exists|ip: Seq<u8>| ip.len() == 4 && #[trigger] dotted(ip) == s {
        Some(choose|ip: Seq<u8>| ip.len() == 4 && #[trigger] dotted(ip) == s)
    } else {
        None
    }
}

/// The bytes of a number up to 255 are its decimal digits.
pub proof fn octet_text_is_decimal(v: u8)
    ensures
        octet_text(v).len() == text::decimal(v as nat).len(),
        forall|i: int| 0 <= i < octet_text(v).len() ==> #[trigger] octet_text(v)[i] == text::decimal(v as nat)[i] as u8,
{
    reveal(octet_text);
    reveal_with_fuel(text::decimal, 3);
}

/// Is `b` a decimal digit.
pub open spec fn is_digit(b: u8) -> bool {
    48 <= b <= 57
}

/// Does the number `v`, written in full, stand at `i..j`.
pub open spec fn octet_at(s: Seq<u8>, i: int, v: u8, j: int) -> bool {
    &&& 0 <= i <= j <= s.len()
    &&& s.subrange(i, j) == octet_text(v)
    &&& j == s.len() || !is_digit(s[j])
}

/// At one place at most one number is written.
proof fn lemma_octet_unique(s: Seq<u8>, i: int, v: u8, j: int, w: u8, k: int)
    requires
        octet_at(s, i, v, j),
        octet_at(s, i, w, k),
    ensures
        v == w,
        j == k,
{
    reveal(octet_text);
    let a = s.subrange(i, j);
    let b = s.subrange(i, k);
    assert(a.len() == j - i && b.len() == k - i);
    assert(forall|m: int| 0 <= m < a.len() ==> a[m] == s[i + m]);
    assert(forall|m: int| 0 <= m < b.len() ==> b[m] == s[i + m]);
    assert(1 <= a.len() <= 3 && 1 <= b.len() <= 3);
    if j < k {
        assert(b[j - i] == s[j]);
    }
    if k < j {
        assert(a[k - i] == s[k]);
    }
    assert(a[0] == b[0]);
    if a.len() > 1 {
        assert(a[1] == b[1]);
    }
    if a.len() > 2 {
        assert(a[2] == b[2]);
    }
}

/// Reads the number at `i`; gives it and the place behind it.
fn take_octet(s: &[u8], i: usize) -> (r: Option<(u8, usize)>)
    requires
        i <= s@.len(),
    ensures
        match r {
            Some((v, j)) => octet_at(s@, i as int, v, j as int),
            None => forall|v: u8, j: int| !#[trigger] octet_at(s@, i as int, v, j),
        },
{
    proof {
        reveal(octet_text);
    }
    let n: usize = s.len();
    if i >= n || s[i] < 48 || s[i] > 57 {
        assert forall|v: u8, j: int| !#[trigger] octet_at(s@, i as int, v, j) by {
            if octet_at(s@, i as int, v, j) {
                let part = s@.subrange(i as int, j);
                assert(part.len() == octet_text(v).len());
                assert(part[0] == octet_text(v)[0]);
                assert(part[0] == s@[i as int]);
            }
        }
        return None;
    }
    let a: u16 = (s[i] - 48) as u16;
    if n - i < 2 || s[i + 1] < 48 || s[i + 1] > 57 {
        assert(s@.subrange(i as int, i + 1) =~= octet_text(a as u8));
        return Some((a as u8, i + 1));
    }
    let b: u16 = (s[i + 1] - 48) as u16;
    if a == 0 {
        assert forall|v: u8, j: int| !#[trigger] octet_at(s@, i as int, v, j) by {
            if octet_at(s@, i as int, v, j) {
                let part = s@.subrange(i as int, j);
                assert(part[0] == octet_text(v)[0]);
                assert(part[0] == s@[i as int]);
                assert(j - i == octet_text(v).len());
                if v >= 10 {
                    assert(octet_text(v)[0] > 48);
                } else {
                    assert(j == i + 1);
                    assert(is_digit(s@[j]));
                }
            }
        }
        return None;
    }
    if n - i < 3 || s[i + 2] < 48 || s[i + 2] > 57 {
        let v: u8 = (a * 10 + b) as u8;
        assert(s@.subrange(i as int, i + 2) =~= octet_text(v));
        return Some((v, i + 2));
    }
    let c: u16 = (s[i + 2] - 48) as u16;
    let v: u16 = a * 100 + b * 10 + c;
    if v > 255 || (n - i > 3 && s[i + 3] >= 48 && s[i + 3] <= 57) {
        assert forall|w: u8, j: int| !#[trigger] octet_at(s@, i as int, w, j) by {
            if octet_at(s@, i as int, w, j) {
                let part = s@.subrange(i as int, j);
                assert(part[0] == octet_text(w)[0] && part[0] == s@[i as int]);
                assert(j - i == octet_text(w).len());
                if j - i == 3 {
                    assert(part[1] == octet_text(w)[1] && part[1] == s@[i + 1]);
                    assert(part[2] == octet_text(w)[2] && part[2] == s@[i + 2]);
                }
            }
        }
        return None;
    }
    assert(s@.subrange(i as int, i + 3) =~= octet_text(v as u8));
    Some((v as u8, i + 3))
}

/// Where the numbers of a written address stand.
proof fn lemma_dotted_places(s: Seq<u8>, ip: Seq<u8>)
    requires
        ip.len() == 4,
        s == dotted(ip),
    ensures
        ({
            let j0 = octet_text(ip[0]).len() as int;
            let j1 = j0 + 1 + octet_text(ip[1]).len();
            let j2 = j1 + 1 + octet_text(ip[2]).len();
            &&& octet_at(s, 0, ip[0], j0)
            &&& j0 < s.len() && s[j0] == 46
            &&& octet_at(s, j0 + 1, ip[1], j1)
            &&& j1 < s.len() && s[j1] == 46
            &&& octet_at(s, j1 + 1, ip[2], j2)
            &&& j2 < s.len() && s[j2] == 46
            &&& octet_at(s, j2 + 1, ip[3], s.len() as int)
        }),
{
    let j0 = octet_text(ip[0]).len() as int;
    let j1 = j0 + 1 + octet_text(ip[1]).len();
    let j2 = j1 + 1 + octet_text(ip[2]).len();
    assert(s.subrange(0, j0) =~= octet_text(ip[0]));
    assert(s.subrange(j0 + 1, j1) =~= octet_text(ip[1]));
    assert(s.subrange(j1 + 1, j2) =~= octet_text(ip[2]));
    assert(s.subrange(j2 + 1, s.len() as int) =~= octet_text(ip[3]));
}

/// Two addresses are not written the same way.
pub proof fn dotted_is_injective(a: Seq<u8>, b: Seq<u8>)
    requires
        a.len() == 4,
        b.len() == 4,
        dotted(a) == dotted(b),
    ensures
        a == b,
{
    let s = dotted(a);
    lemma_dotted_places(s, a);
    lemma_dotted_places(s, b);
    let j0 = octet_text(a[0]).len() as int;
    lemma_octet_unique(s, 0, a[0], j0, b[0], octet_text(b[0]).len() as int);
    let j1 = j0 + 1 + octet_text(a[1]).len();
    lemma_octet_unique(s, j0 + 1, a[1], j1, b[1], j0 + 1 + octet_text(b[1]).len());
    let j2 = j1 + 1 + octet_text(a[2]).len();
    lemma_octet_unique(s, j1 + 1, a[2], j2, b[2], j1 + 1 + octet_text(b[2]).len());
    lemma_octet_unique(s, j2 + 1, a[3], s.len() as int, b[3], s.len() as int);
    assert(a =~= b);
}

/// Reads an IPv4 address: four numbers up to 255 without leading zeros, with
/// dots between them and nothing else.
pub fn parse_ipv4(s: &[u8]) -> (r: Option<[u8; 4]>)
    ensures
        match (r, address_of(s@)) {
            (Some(ip), Some(a)) => ip@ == a && dotted(ip@) == s@,
            (None, None) => true,
            _ => false,
        },
{
    let r = read_ipv4(s);
    proof {
        match r {
            Some(ip) => {
                assert(ip@.len() == 4 && dotted(ip@) == s@);
                let a = address_of(s@)->0;
                dotted_is_injective(ip@, a);
            },
            None => {
                if address_of(s@) is Some {
                    let a = address_of(s@)->0;
                    assert(a.len() == 4 && dotted(a) == s@);
                }
            },
        }
    }
    r
}

fn read_ipv4(s: &[u8]) -> (r: Option<[u8; 4]>)
    ensures
        match r {
            Some(ip) => dotted(ip@) == s@,
            None => forall|ip: Seq<u8>| ip.len() == 4 ==> #[trigger] dotted(ip) != s@,
        },
{
    let n: usize = s.len();
    let mut ip = [0u8; 4];
    let mut at: usize = 0;
    let mut k: usize = 0;
    let ghost mut ends: Seq<int> = Seq::empty();
    while k < 4
        invariant
            k <= 4,
            n == s@.len(),
            at <= n,
            k == 0 ==> at == 0,
            k == 4 ==> at == n,
            ends.len() == k,
            forall|m: int|
                0 <= m < k ==> {
                    let from = if m == 0 {
                        0
                    } else {
                        ends[m - 1] + 1
                    };
                    &&& octet_at(s@, from, ip@[m], #[trigger] ends[m])
                    &&& m < 3 ==> ends[m] < n && s@[ends[m]] == 46
                    &&& m == 3 ==> ends[m] == n
                },
            0 < k < 4 ==> at == ends[k - 1] + 1,
            forall|want: Seq<u8>|
                want.len() == 4 && #[trigger] dotted(want) == s@ ==> {
                    &&& k < 4 ==> at == offset_of(want, k as int)
                    &&& forall|m: int| 0 <= m < k ==> #[trigger] ip@[m] == want[m]
                },
        decreases 4 - k,
    {
        let ghost was = ip@;
        match take_octet(s, at) {
            None => {
                proof {
                    assert forall|want: Seq<u8>| want.len() == 4 implies #[trigger] dotted(want) != s@ by {
                        if dotted(want) == s@ {
                            lemma_dotted_places(s@, want);
                            assert(octet_at(s@, at as int, want[k as int], offset_of(want, k as int) + octet_text(
                                want[k as int],
                            ).len()));
                        }
                    }
                }
                return None;
            },
            Some((v, j)) => {
                let fits = if k < 3 {
                    j < n && s[j] == 46
                } else {
                    j == n
                };
                proof {
                    assert forall|want: Seq<u8>| want.len() == 4 && #[trigger] dotted(want) == s@ implies {
                        &&& fits
                        &&& v == want[k as int]
                        &&& j == offset_of(want, k as int) + octet_text(want[k as int]).len()
                    } by {
                        lemma_dotted_places(s@, want);
                        let e = offset_of(want, k as int) + octet_text(want[k as int]).len();
                        assert(octet_at(s@, at as int, want[k as int], e));
                        lemma_octet_unique(s@, at as int, v, j as int, want[k as int], e);
                    }
                }
                if !fits {
                    return None;
                }
                ip[k] = v;
                proof {
                    ends = ends.push(j as int);
                    assert forall|want: Seq<u8>| want.len() == 4 && #[trigger] dotted(want) == s@ implies {
                        forall|m: int| 0 <= m < k + 1 ==> #[trigger] ip@[m] == want[m]
                    } by {
                        assert forall|m: int| 0 <= m < k + 1 implies #[trigger] ip@[m] == want[m] by {
                            if m < k {
                                assert(was[m] == want[m]);
                                assert(ip@[m] == was[m]);
                            }
                        }
                    }
                }
                at = if k < 3 {
                    j + 1
                } else {
                    j
                };
                k = k + 1;
            },
        }
    }
    proof {
        let j0 = ends[0];
        let j1 = ends[1];
        let j2 = ends[2];
        assert(ends[3] == n);
        assert(octet_at(s@, 0, ip@[0], j0));
        assert(octet_at(s@, j0 + 1, ip@[1], j1));
        assert(octet_at(s@, j1 + 1, ip@[2], j2));
        assert(octet_at(s@, j2 + 1, ip@[3], n as int));
        assert(s@ =~= s@.subrange(0, j0) + seq![46u8] + s@.subrange(j0 + 1, j1) + seq![46u8] + s@.subrange(j1 + 1, j2)
            + seq![46u8] + s@.subrange(j2 + 1, n as int));
    }
    Some(ip)
}

/// Where the `k`-th number of a written address starts.
spec fn offset_of(ip: Seq<u8>, k: int) -> int
    decreases k,
{
    if k <= 0 {
        0
    } else {
        offset_of(ip, k - 1) + octet_text(ip[k - 1]).len() + 1
    }
}

/// Value of a hexadecimal digit.
pub open spec fn hex_digit(b: u8) -> Option<u8> {
    if 48 <= b <= 57 {
        Some((b - 48) as u8)
    } else if 97 <= b <= 102 {
        Some((b - 87) as u8)
    } else if 65 <= b <= 70 {
        Some((b - 55) as u8)
    } else {
        None
    }
}

/// Value of two characters: two hexadecimal digits, or a plus sign and one.
pub open spec fn hex_byte(a: u8, b: u8) -> Option<u8> {
    match (hex_digit(a), hex_digit(b)) {
        (Some(x), Some(y)) => Some((16 * x + y) as u8),
        (None, Some(y)) => if a == 43 {
            Some(y)
        } else {
            None
        },
        _ => None,
    }
}

/// Is a text the hexadecimal form of a key.
pub open spec fn is_hex_key(s: Seq<u8>) -> bool {
    &&& s.len() == 32
    &&& forall|i: int| #![trigger s[2 * i]] 0 <= i < 16 ==> hex_byte(s[2 * i], s[2 * i + 1]) is Some
}

/// The key of a hexadecimal text.
pub open spec fn hex_key(s: Seq<u8>) -> Seq<u8> {
    Seq::new(16, |i: int| hex_byte(s[2 * i], s[2 * i + 1])->0)
}

fn digit_value(b: u8) -> (d: Option<u8>)
    ensures
        d == hex_digit(b),
{
    if b >= 48 && b <= 57 {
        Some(b - 48)
    } else if b >= 97 && b <= 102 {
        Some(b - 87)
    } else if b >= 65 && b <= 70 {
        Some(b - 55)
    } else {
        None
    }
}

fn byte_value(a: u8, b: u8) -> (v: Option<u8>)
    ensures
        v == hex_byte(a, b),
{
    match (digit_value(a), digit_value(b)) {
        (Some(x), Some(y)) => Some(16 * x + y),
        (None, Some(y)) => if a == 43 {
            Some(y)
        } else {
            None
        },
        _ => None,
    }
}

/// The key of a hexadecimal text, if it is one.
pub fn parse_key(hex: &str) -> (r: Option<[u8; 16]>)
    ensures
        match r {
            Some(key) => is_hex_key(bytes_of(hex@)) && key@ == hex_key(bytes_of(hex@)),
            None => !is_hex_key(bytes_of(hex@)),
        },
{
    let s = hex.as_bytes();
    if s.len() != 32 {
        return None;
    }
    let mut key = [0u8; 16];
    let mut i: usize = 0;
    while i < 16
        invariant
            i <= 16,
            s@ == bytes_of(hex@),
            s@.len() == 32,
            forall|k: int|
                #![trigger s@[2 * k]]
                0 <= k < i ==> hex_byte(s@[2 * k], s@[2 * k + 1]) is Some && key@[k] == hex_byte(
                    s@[2 * k],
                    s@[2 * k + 1],
                )->0,
        decreases 16 - i,
    {
        assert(s@[2 * (i as int)] == s@[(2 * i) as int]);
        match byte_value(s[2 * i], s[2 * i + 1]) {
            Some(v) => {
                key[i] = v;
            },
            None => {
                return None;
            },
        }
        i = i + 1;
    }
    assert forall|k: int| 0 <= k < 16 implies key@[k] == hex_key(s@)[k] by {
        assert(s@[2 * k] == s@[2 * k]);
    }
    assert(key@ =~= hex_key(s@));
    Some(key)
}

/// The key of a hexadecimal text of 32 characters: sixteen pairs, each of two
/// digits, or of a plus sign and one digit.
pub fn hex_to_u8_16(hex: &str) -> (key: [u8; 16])
    requires
        is_hex_key(bytes_of(hex@)),
    ensures
        key@ == hex_key(bytes_of(hex@)),
{
    match parse_key(hex) {
        Some(key) => key,
        None => [0u8; 16],
    }
}

/// Why a network cannot be configured.
pub open spec fn network_fault(ssid: Seq<char>, passwd: Seq<char>, i: int) -> Option<ConfigError> {
    if bytes_of(ssid).len() > SSID_MAX_BYTES {
        Some(ConfigError::SsidTooLong(i as usize))
    } else if bytes_of(passwd).len() > PASSWD_MAX_BYTES {
        Some(ConfigError::PasswdTooLong(i as usize))
    } else {
        None
    }
}

/// Checks the lengths of network number `i`: the radio would refuse longer ones
/// only on the device, and reset it over and over.
pub fn check_network(ssid: &str, passwd: &str, i: usize) -> (r: Result<(), ConfigError>)
    ensures
        match (r, network_fault(ssid@, passwd@, i as int)) {
            (Ok(_), None) => true,
            (Err(e), Some(f)) => e == f,
            _ => false,
        },
{
    if ssid.as_bytes().len() > SSID_MAX_BYTES {
        Err(ConfigError::SsidTooLong(i))
    } else if passwd.as_bytes().len() > PASSWD_MAX_BYTES {
        Err(ConfigError::PasswdTooLong(i))
    } else {
        Ok(())
    }
}

/// The text of a value.
pub open spec fn text_of(f: FieldView, key: Key) -> Result<Seq<char>, ConfigError> {
    match f {
        FieldView::Text(s) => Ok(s),
        _ => Err(ConfigError::BadField(key)),
    }
}

/// The networks of a configuration. The second is there only with both halves.
pub open spec fn networks_of(f: FieldsView) -> Result<Seq<(Seq<char>, Seq<char>)>, ConfigError> {
    match text_of(f.wifi_ssid, Key::WifiSsid) {
        Err(e) => Err(e),
        Ok(ssid) => match text_of(f.wifi_passwd, Key::WifiPasswd) {
            Err(e) => Err(e),
            Ok(passwd) => if f.wifi2_ssid is Missing && f.wifi2_passwd is Missing {
                Ok(seq![(ssid, passwd)])
            } else if f.wifi2_ssid is Missing || f.wifi2_passwd is Missing {
                Err(ConfigError::HalfNetwork)
            } else {
                match text_of(f.wifi2_ssid, Key::Wifi2Ssid) {
                    Err(e) => Err(e),
                    Ok(ssid2) => match text_of(f.wifi2_passwd, Key::Wifi2Passwd) {
                        Err(e) => Err(e),
                        Ok(passwd2) => Ok(seq![(ssid, passwd), (ssid2, passwd2)]),
                    },
                }
            },
        },
    }
}

/// The first network that cannot be configured, from network `i` on.
pub open spec fn networks_fault(networks: Seq<(Seq<char>, Seq<char>)>, i: int) -> Option<ConfigError>
    decreases networks.len() - i,
{
    if i >= networks.len() {
        None
    } else {
        match network_fault(networks[i].0, networks[i].1, i) {
            Some(e) => Some(e),
            None => networks_fault(networks, i + 1),
        }
    }
}

/// The configuration that the values make, or the first thing wrong with them:
/// the networks, the address, the port, the key, then the lengths.
pub open spec fn config_of(f: FieldsView) -> Result<ConfigView, ConfigError> {
    match networks_of(f) {
        Err(e) => Err(e),
        Ok(networks) => match text_of(f.server_ip, Key::ServerIp) {
            Err(e) => Err(e),
            Ok(ip_text) => match address_of(bytes_of(ip_text)) {
                None => Err(ConfigError::BadAddress),
                Some(ip) => match f.server_port {
                    FieldView::Integer(port) => match text_of(f.secret_key, Key::SecretKey) {
                        Err(e) => Err(e),
                        Ok(hex) => if !is_hex_key(bytes_of(hex)) {
                            Err(ConfigError::BadKey)
                        } else {
                            match networks_fault(networks, 0) {
                                Some(e) => Err(e),
                                None => Ok(
                                    ConfigView {
                                        networks,
                                        ip,
                                        port: port % 65536,
                                        key: hex_key(bytes_of(hex)),
                                    },
                                ),
                            }
                        },
                    },
                    _ => Err(ConfigError::BadField(Key::ServerPort)),
                },
            },
        },
    }
}

fn take_text(f: Field, key: Key) -> (r: Result<String, ConfigError>)
    ensures
        match (r, text_of(f@, key)) {
            (Ok(s), Ok(t)) => s@ == t,
            (Err(e), Err(g)) => e == g,
            _ => false,
        },
{
    match f {
        Field::Text(s) => Ok(s),
        _ => Err(ConfigError::BadField(key)),
    }
}

/// The low 16 bits of a number.
fn low16(n: i64) -> (p: u16)
    ensures
        p == n as int % 65536,
{
    if n >= 0 {
        (n as u64 % 65536) as u16
    } else {
        65535 - ((-(n + 1)) as u64 % 65536) as u16
    }
}

fn take_networks(
    wifi_ssid: Field,
    wifi_passwd: Field,
    wifi2_ssid: Field,
    wifi2_passwd: Field,
    Ghost(f): Ghost<FieldsView>,
) -> (r: Result<Vec<(String, String)>, ConfigError>)
    requires
        f.wifi_ssid == wifi_ssid@,
        f.wifi_passwd == wifi_passwd@,
        f.wifi2_ssid == wifi2_ssid@,
        f.wifi2_passwd == wifi2_passwd@,
    ensures
        match (r, networks_of(f)) {
            (Ok(v), Ok(n)) => networks_view(v@) == n,
            (Err(e), Err(g)) => e == g,
            _ => false,
        },
{
    let ssid = match take_text(wifi_ssid, Key::WifiSsid) {
        Ok(s) => s,
        Err(e) => {
            return Err(e);
        },
    };
    let passwd = match take_text(wifi_passwd, Key::WifiPasswd) {
        Ok(s) => s,
        Err(e) => {
            return Err(e);
        },
    };
    let mut networks: Vec<(String, String)> = Vec::new();
    let ghost first = (ssid@, passwd@);
    networks.push((ssid, passwd));
    assert(networks_view(networks@) =~= seq![first]);
    match (wifi2_ssid, wifi2_passwd) {
        (Field::Missing, Field::Missing) => Ok(networks),
        (Field::Missing, _) => Err(ConfigError::HalfNetwork),
        (_, Field::Missing) => Err(ConfigError::HalfNetwork),
        (ssid2, passwd2) => {
            let ssid2 = match take_text(ssid2, Key::Wifi2Ssid) {
                Ok(s) => s,
                Err(e) => {
                    return Err(e);
                },
            };
            let passwd2 = match take_text(passwd2, Key::Wifi2Passwd) {
                Ok(s) => s,
                Err(e) => {
                    return Err(e);
                },
            };
            let ghost second = (ssid2@, passwd2@);
            networks.push((ssid2, passwd2));
            assert(networks_view(networks@) =~= seq![first, second]);
            Ok(networks)
        },
    }
}

/// Makes a configuration of the values of a document.
pub fn build_config(fields: Fields) -> (r: Result<FirmwareConfig, ConfigError>)
    ensures
        match (r, config_of(fields@)) {
            (Ok(c), Ok(v)) => c@ == v,
            (Err(e), Err(f)) => e == f,
            _ => false,
        },
{
    let ghost f = fields@;
    let wifi_networks = match take_networks(
        fields.wifi_ssid,
        fields.wifi_passwd,
        fields.wifi2_ssid,
        fields.wifi2_passwd,
        Ghost(f),
    ) {
        Ok(n) => n,
        Err(e) => {
            return Err(e);
        },
    };
    let ip_text = match take_text(fields.server_ip, Key::ServerIp) {
        Ok(s) => s,
        Err(e) => {
            return Err(e);
        },
    };
    let server_ip = match parse_ipv4(ip_text.as_str().as_bytes()) {
        Some(ip) => ip,
        None => {
            return Err(ConfigError::BadAddress);
        },
    };
    let server_port: u16 = match fields.server_port {
        Field::Integer(n) => low16(n),
        _ => {
            return Err(ConfigError::BadField(Key::ServerPort));
        },
    };
    let hex = match take_text(fields.secret_key, Key::SecretKey) {
        Ok(s) => s,
        Err(e) => {
            return Err(e);
        },
    };
    let secret_key = match parse_key(hex.as_str()) {
        Some(key) => key,
        None => {
            return Err(ConfigError::BadKey);
        },
    };
    let ghost networks = networks_view(wifi_networks@);
    let mut i: usize = 0;
    while i < wifi_networks.len()
        invariant
            i <= wifi_networks@.len(),
            f == fields@,
            networks == networks_view(wifi_networks@),
            networks_fault(networks, 0) == networks_fault(networks, i as int),
            config_of(f) == match networks_fault(networks, 0) {
                Some(e) => Err::<ConfigView, ConfigError>(e),
                None => Ok(
                    ConfigView { networks, ip: server_ip@, port: server_port as int, key: secret_key@ },
                ),
            },
        decreases wifi_networks@.len() - i,
    {
        assert(networks[i as int] == (wifi_networks@[i as int].0@, wifi_networks@[i as int].1@));
        match check_network(wifi_networks[i].0.as_str(), wifi_networks[i].1.as_str(), i) {
            Ok(_) => {},
            Err(e) => {
                return Err(e);
            },
        }
        i = i + 1;
    }
    Ok(FirmwareConfig { wifi_networks, server_ip, server_port, secret_key })
}

/// The values that the `firmware` section of a document gives; `None`: it is
/// not TOML.
pub open spec fn document_fields(doc: Seq<char>) -> Option<FieldsView> {
    let section = "firmware"@;
    match (
        toml_field(doc, section, "wifi_ssid"@),
        toml_field(doc, section, "wifi_passwd"@),
        toml_field(doc, section, "wifi2_ssid"@),
        toml_field(doc, section, "wifi2_passwd"@),
        toml_field(doc, section, "server_ip"@),
        toml_field(doc, section, "server_port"@),
        toml_field(doc, section, "secret_key"@),
    ) {
        (
            Some(wifi_ssid),
            Some(wifi_passwd),
            Some(wifi2_ssid),
            Some(wifi2_passwd),
            Some(server_ip),
            Some(server_port),
            Some(secret_key),
        ) => Some(
            FieldsView { wifi_ssid, wifi_passwd, wifi2_ssid, wifi2_passwd, server_ip, server_port, secret_key },
        ),
        _ => None,
    }
}

/// Reads a configuration from a TOML document.
pub fn parse_config(doc: &str) -> (r: Result<FirmwareConfig, ConfigError>)
    ensures
        match document_fields(doc@) {
            None => r matches Err(e) && e == ConfigError::InvalidToml,
            Some(f) => match (r, config_of(f)) {
                (Ok(c), Ok(v)) => c@ == v,
                (Err(e), Err(g)) => e == g,
                _ => false,
            },
        },
{
    let section = "firmware";
    match (
        lookup(doc, section, "wifi_ssid"),
        lookup(doc, section, "wifi_passwd"),
        lookup(doc, section, "wifi2_ssid"),
        lookup(doc, section, "wifi2_passwd"),
        lookup(doc, section, "server_ip"),
        lookup(doc, section, "server_port"),
        lookup(doc, section, "secret_key"),
    ) {
        (
            Some(wifi_ssid),
            Some(wifi_passwd),
            Some(wifi2_ssid),
            Some(wifi2_passwd),
            Some(server_ip),
            Some(server_port),
            Some(secret_key),
        ) => build_config(
            Fields { wifi_ssid, wifi_passwd, wifi2_ssid, wifi2_passwd, server_ip, server_port, secret_key },
        ),
        _ => Err(ConfigError::InvalidToml),
    }
}

/// Numbers in decimal digits, with a comma and a space between them.
pub open spec fn listed(v: Seq<u8>) -> Seq<char>
    decreases v.len(),
{
    if v.len() == 0 {
        Seq::empty()
    } else if v.len() == 1 {
        text::decimal(v[0] as nat)
    } else {
        listed(v.drop_last()) + ", "@ + text::decimal(v.last() as nat)
    }
}

fn append_list(out: &mut String, v: &[u8])
    ensures
        final(out)@ == old(out)@ + listed(v@),
{
    let ghost was = out@;
    let mut i: usize = 0;
    assert(v@.take(0) =~= Seq::empty());
    assert(was + listed(v@.take(0)) =~= was);
    while i < v.len()
        invariant
            i <= v@.len(),
            out@ == was + listed(v@.take(i as int)),
        decreases v@.len() - i,
    {
        let ghost upto = v@.take(i + 1);
        assert(upto.drop_last() =~= v@.take(i as int));
        assert(upto.last() == v@[i as int]);
        if i > 0 {
            out.append(", ");
        }
        text::append_decimal(out, v[i] as u16);
        assert(out@ =~= was + listed(upto));
        i = i + 1;
    }
    assert(v@.take(v@.len() as int) =~= v@);
}

/// The key as the elements of an array.
pub fn secret_literal(secret: &[u8; 16]) -> (s: String)
    ensures
        s@ == listed(secret@),
{
    let mut out = String::new();
    append_list(&mut out, secret);
    assert(out@ =~= listed(secret@));
    out
}

/// The address as an expression.
pub open spec fn address_literal(ip: Seq<u8>) -> Seq<char> {
    "core::net::Ipv4Addr::new("@ + listed(ip) + ")"@
}

/// The address as an expression.
pub fn ipv4_literal(ip: [u8; 4]) -> (s: String)
    ensures
        s@ == address_literal(ip@),
{
    let mut out = String::new();
    out.append("core::net::Ipv4Addr::new(");
    append_list(&mut out, &ip);
    out.append(")");
    assert(out@ =~= address_literal(ip@));
    out
}

/// A network as a pair of literals.
pub open spec fn pair_literal(ssid: Seq<char>, passwd: Seq<char>) -> Seq<char> {
    "(\""@ + ssid + "\", \""@ + passwd + "\")"@
}

/// Networks as pairs of literals, with a comma and a space between them.
pub open spec fn pairs_literal(networks: Seq<(Seq<char>, Seq<char>)>) -> Seq<char>
    decreases networks.len(),
{
    if networks.len() == 0 {
        Seq::empty()
    } else if networks.len() == 1 {
        pair_literal(networks[0].0, networks[0].1)
    } else {
        pairs_literal(networks.drop_last()) + ", "@ + pair_literal(networks.last().0, networks.last().1)
    }
}

/// The networks as the elements of a slice.
pub fn networks_literal(networks: &Vec<(String, String)>) -> (s: String)
    ensures
        s@ == pairs_literal(networks_view(networks@)),
{
    let ghost all = networks_view(networks@);
    let mut out = String::new();
    let mut i: usize = 0;
    assert(all.take(0) =~= Seq::empty());
    assert(out@ =~= pairs_literal(all.take(0)));
    while i < networks.len()
        invariant
            i <= networks@.len(),
            all == networks_view(networks@),
            out@ == pairs_literal(all.take(i as int)),
        decreases networks@.len() - i,
    {
        let ghost upto = all.take(i + 1);
        let ghost before = out@;
        assert(upto.drop_last() =~= all.take(i as int));
        assert(upto.last() == all[i as int]);
        if i > 0 {
            out.append(", ");
        }
        let ghost joined = out@;
        out.append("(\"");
        out.append(networks[i].0.as_str());
        out.append("\", \"");
        out.append(networks[i].1.as_str());
        out.append("\")");
        assert(out@ =~= joined + pair_literal(all[i as int].0, all[i as int].1));
        assert(out@ =~= pairs_literal(upto));
        i = i + 1;
    }
    assert(all.take(all.len() as int) =~= all);
    out
}

/// The source text that compiles a configuration in.
pub open spec fn constants_text(c: ConfigView) -> Seq<char> {
    "\npub static WIFI_NETWORKS: &[(&str, &str)] = &["@ + pairs_literal(c.networks)
        + "];\npub const SERVER_IP: core::net::Ipv4Addr = "@ + address_literal(c.ip)
        + ";\npub const SERVER_PORT: u16 = "@ + text::decimal(c.port as nat)
        + ";\npub static SECRET_KEY: [u8; 16] = ["@ + listed(c.key) + "];\n"@
}

/// The source text that compiles a configuration in.
pub fn constants_source(config: &FirmwareConfig) -> (s: String)
    ensures
        s@ == constants_text(config@),
{
    let networks = networks_literal(&config.wifi_networks);
    let ip = ipv4_literal(config.server_ip);
    let secret = secret_literal(&config.secret_key);
    let mut out = String::new();
    out.append("\npub static WIFI_NETWORKS: &[(&str, &str)] = &[");
    out.append(networks.as_str());
    out.append("];\npub const SERVER_IP: core::net::Ipv4Addr = ");
    out.append(ip.as_str());
    out.append(";\npub const SERVER_PORT: u16 = ");
    text::append_decimal(&mut out, config.server_port);
    out.append(";\npub static SECRET_KEY: [u8; 16] = [");
    out.append(secret.as_str());
    out.append("];\n");
    assert(out@ =~= constants_text(config@));
    out
}

/// An address is read back from how it is written.
pub proof fn address_roundtrip(ip: Seq<u8>)
    requires
        ip.len() == 4,
    ensures
        address_of(dotted(ip)) == Some(ip),
{
    let s = dotted(ip);
    assert(exists|a: Seq<u8>| a.len() == 4 && #[trigger] dotted(a) == s);
    let a = choose|a: Seq<u8>| a.len() == 4 && #[trigger] dotted(a) == s;
    dotted_is_injective(a, ip);
}

/// A configuration that is accepted has a main network, at most one more, and
/// only names and passwords that the radio takes.
pub proof fn accepted_networks_fit(f: FieldsView, c: ConfigView, i: int)
    requires
        config_of(f) == Ok::<ConfigView, ConfigError>(c),
        0 <= i < c.networks.len(),
    ensures
        1 <= c.networks.len() <= 2,
        bytes_of(c.networks[i].0).len() <= SSID_MAX_BYTES,
        bytes_of(c.networks[i].1).len() <= PASSWD_MAX_BYTES,
{
    reveal_with_fuel(networks_fault, 3);
    assert(network_fault(c.networks[0].0, c.networks[0].1, 0) is None);
    if c.networks.len() == 2 {
        assert(network_fault(c.networks[1].0, c.networks[1].1, 1) is None);
    }
}

/// A configuration is what the document says: its main network first and the
/// second behind it, where both halves are there; the address that is written; the
/// port in sixteen bits; the key of its digits.
pub proof fn a_configuration_is_what_is_written(f: FieldsView, c: ConfigView)
    requires
        config_of(f) == Ok::<ConfigView, ConfigError>(c),
    ensures
        f.wifi_ssid matches FieldView::Text(s) && c.networks[0].0 == s,
        f.wifi_passwd matches FieldView::Text(s) && c.networks[0].1 == s,
        c.networks.len() == 1 <==> f.wifi2_ssid is Missing,
        f.wifi2_ssid is Missing <==> f.wifi2_passwd is Missing,
        c.networks.len() == 2 ==> (f.wifi2_ssid matches FieldView::Text(s) && c.networks[1].0 == s) && (f.wifi2_passwd matches FieldView::Text(
            s,
        ) && c.networks[1].1 == s),
        c.networks.len() == 1 || c.networks.len() == 2,
        f.server_ip matches FieldView::Text(s) && c.ip.len() == 4 && dotted(c.ip) == bytes_of(s),
        f.server_port matches FieldView::Integer(p) && 0 <= c.port < 65536 && (p - c.port) % 65536 == 0,
        0 <= (f.server_port->Integer_0) < 65536 ==> c.port == f.server_port->Integer_0,
        f.secret_key matches FieldView::Text(s) && bytes_of(s).len() == 32 && c.key == hex_key(bytes_of(s)),
        c.key.len() == 16,
{
}

/// What makes a document no configuration, in the order in which it is told:
/// the networks, the address, the port, the key; half a second network is one of
/// them.
pub proof fn what_is_no_configuration(f: FieldsView)
    ensures
        !(f.wifi_ssid is Text) ==> config_of(f) == Err::<ConfigView, ConfigError>(ConfigError::BadField(Key::WifiSsid)),
        f.wifi_ssid is Text && !(f.wifi_passwd is Text) ==> config_of(f) == Err::<ConfigView, ConfigError>(
            ConfigError::BadField(Key::WifiPasswd),
        ),
        f.wifi_ssid is Text && f.wifi_passwd is Text && (f.wifi2_ssid is Missing) != (f.wifi2_passwd is Missing)
            ==> config_of(f) == Err::<ConfigView, ConfigError>(ConfigError::HalfNetwork),
        networks_of(f) is Ok && !(f.server_ip is Text) ==> config_of(f) == Err::<ConfigView, ConfigError>(
            ConfigError::BadField(Key::ServerIp),
        ),
        networks_of(f) is Ok && (f.server_ip matches FieldView::Text(s) && address_of(bytes_of(s)) is None)
            ==> config_of(f) == Err::<ConfigView, ConfigError>(ConfigError::BadAddress),
        networks_of(f) is Ok && (f.server_ip matches FieldView::Text(s) && address_of(bytes_of(s)) is Some) && !(
        f.server_port is Integer) ==> config_of(f) == Err::<ConfigView, ConfigError>(
            ConfigError::BadField(Key::ServerPort),
        ),
        networks_of(f) is Ok && (f.server_ip matches FieldView::Text(s) && address_of(bytes_of(s)) is Some)
            && f.server_port is Integer && !(f.secret_key is Text) ==> config_of(f) == Err::<ConfigView, ConfigError>(
            ConfigError::BadField(Key::SecretKey),
        ),
        networks_of(f) is Ok && (f.server_ip matches FieldView::Text(s) && address_of(bytes_of(s)) is Some)
            && f.server_port is Integer && (f.secret_key matches FieldView::Text(k) && !is_hex_key(bytes_of(k)))
            ==> config_of(f) == Err::<ConfigView, ConfigError>(ConfigError::BadKey),
{
}

/// A name of up to 32 bytes and a password of up to 64 make a network; longer
/// ones do not, and the name is looked at first.
pub proof fn networks_keep_to_the_radio(ssid: Seq<char>, passwd: Seq<char>, i: int)
    ensures
        network_fault(ssid, passwd, i) is None <==> bytes_of(ssid).len() <= 32 && bytes_of(passwd).len() <= 64,
        bytes_of(ssid).len() > 32 ==> network_fault(ssid, passwd, i) == Some(ConfigError::SsidTooLong(i as usize)),
        bytes_of(ssid).len() <= 32 && bytes_of(passwd).len() > 64 ==> network_fault(ssid, passwd, i) == Some(
            ConfigError::PasswdTooLong(i as usize),
        ),
{
}

/// The character of a hexadecimal digit, as a byte, in either case.
pub open spec fn hex_char(d: u8, upper: bool) -> u8 {
    if d < 10 {
        (48 + d) as u8
    } else if upper {
        (55 + d) as u8
    } else {
        (87 + d) as u8
    }
}

/// A key is read from its hexadecimal digits, two to a byte, the high one first,
/// in either case.
pub proof fn keys_are_read_back(key: Seq<u8>, text: Seq<u8>, upper: bool)
    requires
        key.len() == 16,
        text.len() == 32,
        forall|i: int|
            0 <= i < 16 ==> text[2 * i] == hex_char((#[trigger] key[i] / 16) as u8, upper) && text[2 * i + 1]
                == hex_char((key[i] % 16) as u8, upper),
    ensures
        is_hex_key(text),
        hex_key(text) == key,
{
    assert forall|i: int| 0 <= i < 16 implies hex_byte(#[trigger] text[2 * i], text[2 * i + 1]) == Some(key[i]) by {
        let v = key[i];
        assert(v == v / 16 * 16 + v % 16);
    }
    assert forall|i: int| 0 <= i < 16 implies hex_key(text)[i] == key[i] by {
        assert(hex_byte(text[2 * i], text[2 * i + 1]) == Some(key[i]));
    }
    assert(hex_key(text) =~= key);
}

/// Lists of numbers and of networks are written one after another, with a comma
/// and a space between them.
pub proof fn lists_are_joined_by_commas(
    v: Seq<u8>,
    x: u8,
    networks: Seq<(Seq<char>, Seq<char>)>,
    ssid: Seq<char>,
    passwd: Seq<char>,
)
    ensures
        listed(seq![x]) == text::decimal(x as nat),
        v.len() > 0 ==> listed(v.push(x)) == listed(v) + ", "@ + text::decimal(x as nat),
        pairs_literal(seq![(ssid, passwd)]) == "(\""@ + ssid + "\", \""@ + passwd + "\")"@,
        networks.len() > 0 ==> pairs_literal(networks.push((ssid, passwd))) == pairs_literal(networks) + ", "@ + (
        "(\""@ + ssid + "\", \""@ + passwd + "\")"@),
{
    assert(v.push(x).drop_last() =~= v);
    assert(networks.push((ssid, passwd)).drop_last() =~= networks);
}

/// An address is written as four decimal numbers with dots between them, and in
/// no other way.
pub proof fn addresses_are_dotted(ip: Seq<u8>, s: Seq<u8>)
    requires
        ip.len() == 4,
    ensures
        address_of(s) == Some(ip) <==> s == octet_text(ip[0]) + seq![46u8] + octet_text(ip[1]) + seq![46u8]
            + octet_text(ip[2]) + seq![46u8] + octet_text(ip[3]),
{
    address_roundtrip(ip);
    if let Some(a) = address_of(s) {
        let b = choose|b: Seq<u8>| b.len() == 4 && #[trigger] dotted(b) == s;
        assert(dotted(b) == s);
    }
    if s == dotted(ip) {
        assert(address_of(s) == Some(ip));
    }
}

/// Values that are all good make a configuration, and a network that the radio
/// would not take is the one thing that then still refuses it: the first such.
pub proof fn good_values_make_a_configuration(
    f: FieldsView,
    ssid: Seq<char>,
    passwd: Seq<char>,
    ip: Seq<u8>,
    address: Seq<char>,
    port: int,
    hex: Seq<char>,
)
    requires
        f.wifi_ssid == FieldView::Text(ssid),
        f.wifi_passwd == FieldView::Text(passwd),
        f.wifi2_ssid is Missing && f.wifi2_passwd is Missing || f.wifi2_ssid is Text && f.wifi2_passwd is Text,
        f.server_ip == FieldView::Text(address),
        ip.len() == 4,
        bytes_of(address) == dotted(ip),
        f.server_port == FieldView::Integer(port),
        f.secret_key == FieldView::Text(hex),
        is_hex_key(bytes_of(hex)),
    ensures
        ({
            let first = bytes_of(ssid).len() <= 32 && bytes_of(passwd).len() <= 64;
            let second = f.wifi2_ssid is Missing || bytes_of(f.wifi2_ssid->Text_0).len() <= 32 && bytes_of(
                f.wifi2_passwd->Text_0,
            ).len() <= 64;
            &&& config_of(f) is Ok <==> first && second
            &&& !first ==> config_of(f) == Err::<ConfigView, ConfigError>(
                if bytes_of(ssid).len() > 32 {
                    ConfigError::SsidTooLong(0)
                } else {
                    ConfigError::PasswdTooLong(0)
                },
            )
            &&& first && !second ==> config_of(f) == Err::<ConfigView, ConfigError>(
                if bytes_of(f.wifi2_ssid->Text_0).len() > 32 {
                    ConfigError::SsidTooLong(1)
                } else {
                    ConfigError::PasswdTooLong(1)
                },
            )
            &&& config_of(f) matches Ok(c) ==> c.ip == ip
        }),
{
    reveal_with_fuel(networks_fault, 3);
    address_roundtrip(ip);
}

} // verus!
