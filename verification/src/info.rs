//! Host machine information.

use vstd::prelude::*;
use vstd::arithmetic::div_mod::{lemma_div_denominator, lemma_fundamental_div_mod};
use vstd::arithmetic::mul::{lemma_mul_inequality, lemma_mul_strictly_positive};

use crate::text::{digit, digit_char, push_char, push_str};

verus! {

/// The value of the hex digit `b`, upper or lower case, if it is one.
pub open spec fn hex_value(b: u8) -> Option<u8> {
    if 65 <= b <= 70 {
        Some((b - 65 + 10) as u8)
    } else if 97 <= b <= 102 {
        Some((b - 97 + 10) as u8)
    } else if 48 <= b <= 57 {
        Some((b - 48) as u8)
    } else {
        None
    }
}

/// Every byte of `s` is a hex digit.
pub open spec fn all_hex(s: Seq<u8>) -> bool {
    forall|i: int| 0 <= i < s.len() ==> #[trigger] hex_value(s[i]) is Some
}

/// `value` followed by the hex digits `s`, as a number.
pub open spec fn hex_append(value: nat, s: Seq<u8>) -> nat
    decreases s.len(),
{
    if s.len() == 0 {
        value
    } else {
        (hex_append(value, s.drop_last()) * 16 + hex_value(s.last()).unwrap()) as nat
    }
}

/// The number the hex digits `s` write.
pub open spec fn hex_number(s: Seq<u8>) -> nat {
    hex_append(0, s)
}

/// 16 to the power `n`.
pub open spec fn pow16(n: nat) -> nat
    decreases n,
{
    if n == 0 {
        1
    } else {
        16 * pow16((n - 1) as nat)
    }
}

/// A number of hex digits stays below a power of 16.
proof fn lemma_hex_append_bound(value: nat, s: Seq<u8>)
    requires
        all_hex(s),
    ensures
        hex_append(value, s) < (value + 1) * pow16(s.len()),
    decreases s.len(),
{
    if s.len() == 0 {
        assert(pow16(0) == 1);
    } else {
        let t = s.drop_last();
        assert(all_hex(t)) by {
            assert forall|i: int| 0 <= i < t.len() implies #[trigger] hex_value(t[i]) is Some by {
                assert(t[i] == s[i]);
            }
        }
        lemma_hex_append_bound(value, t);
        assert(hex_value(s[s.len() - 1]) is Some);
        let h = hex_append(value, t);
        let d = hex_value(s.last()).unwrap() as nat;
        let p = pow16(t.len());
        assert(pow16(s.len()) == 16 * p);
        assert(hex_append(value, s) == h * 16 + d);
        assert(h * 16 + d < (value + 1) * (16 * p)) by (nonlinear_arith)
            requires
                h < (value + 1) * p,
                d < 16,
        ;
    }
}

/// Reading digits in two parts is reading them all.
proof fn lemma_hex_append_concat(value: nat, a: Seq<u8>, b: Seq<u8>)
    ensures
        hex_append(value, a + b) == hex_append(hex_append(value, a), b),
    decreases b.len(),
{
    if b.len() > 0 {
        assert((a + b).drop_last() =~= a + b.drop_last());
        assert((a + b).last() == b.last());
        lemma_hex_append_concat(value, a, b.drop_last());
    } else {
        assert(a + b =~= a);
    }
}

/// `16^32` is `2^128`.
proof fn lemma_pow16_32()
    ensures
        pow16(32) == 0x1_0000_0000_0000_0000_0000_0000_0000_0000,
{
    reveal_with_fuel(pow16, 33);
}

/// Powers of 16 grow with the exponent.
proof fn lemma_pow16_mono(a: nat, b: nat)
    requires
        a <= b,
    ensures
        1 <= pow16(a) <= pow16(b),
    decreases b,
{
    if b > a {
        lemma_pow16_mono(a, (b - 1) as nat);
    } else if a > 0 {
        lemma_pow16_mono((a - 1) as nat, (a - 1) as nat);
    }
}

/// Converts a hex digit, upper or lower case, to its value.
pub fn from_hex_byte(b: u8) -> (value: Result<u8, ()>)
    ensures
        match value {
            Ok(v) => hex_value(b) == Some(v),
            Err(()) => hex_value(b) is None,
        },
{
    if b >= 65 && b <= 70 {
        Ok(b - 65 + 10)
    } else if b >= 97 && b <= 102 {
        Ok(b - 97 + 10)
    } else if b >= 48 && b <= 57 {
        Ok(b - 48)
    } else {
        Err(())
    }
}

/// Reads the hex digits `input[start..end]`, two at a time (a byte), after
/// `value`.
fn hex_pairs(input: &[u8], start: usize, end: usize, initial: u128, Ghost(digits): Ghost<nat>) -> (parsed: Result<u128, ()>)
    requires
        start <= end <= input@.len(),
        (end - start) % 2 == 0,
        initial < pow16(digits),
        digits + (end - start) <= 32,
    ensures
        match parsed {
            Ok(v) => {
                &&& all_hex(input@.subrange(start as int, end as int))
                &&& v == hex_append(initial as nat, input@.subrange(start as int, end as int))
                &&& v < pow16((digits + (end - start)) as nat)
            },
            Err(()) => !all_hex(input@.subrange(start as int, end as int)),
        },
{
    let mut i = start;
    let mut value = initial;
    proof {
        assert(input@.subrange(start as int, start as int) =~= Seq::<u8>::empty());
        lemma_pow16_32();
    }
    while i < end
        invariant
            start <= i <= end <= input@.len(),
            (end - i) % 2 == 0,
            digits + (end - start) <= 32,
            pow16(32) == 0x1_0000_0000_0000_0000_0000_0000_0000_0000,
            all_hex(input@.subrange(start as int, i as int)),
            value == hex_append(initial as nat, input@.subrange(start as int, i as int)),
            value < pow16((digits + (i - start)) as nat),
        decreases end - i,
    {
        let lower = match from_hex_byte(input[i + 1]) {
            Ok(lower) => lower,
            Err(()) => {
                proof {
                    assert(input@.subrange(start as int, end as int)[i + 1 - start] == input@[i + 1]);
                }
                return Err(());
            },
        };
        let higher = match from_hex_byte(input[i]) {
            Ok(higher) => higher,
            Err(()) => {
                proof {
                    assert(input@.subrange(start as int, end as int)[i - start] == input@[i as int]);
                }
                return Err(());
            },
        };
        let byte = lower | (higher << 4u8);
        proof {
            assert(lower < 16u8 && higher < 16u8 ==> lower | (higher << 4u8) == higher * 16 + lower) by (bit_vector);
            let before = input@.subrange(start as int, i as int);
            let mid = input@.subrange(start as int, i + 1);
            let after = input@.subrange(start as int, i + 2);
            assert(mid.drop_last() =~= before);
            assert(after.drop_last() =~= mid);
            assert(mid.last() == input@[i as int]);
            assert(after.last() == input@[i + 1]);
            assert(hex_append(initial as nat, mid) == hex_append(initial as nat, before) * 16 + higher);
            assert(hex_append(initial as nat, after) == hex_append(initial as nat, mid) * 16 + lower);
            assert(all_hex(after)) by {
                assert forall|j: int| 0 <= j < after.len() implies #[trigger] hex_value(after[j]) is Some by {
                    if j < before.len() {
                        assert(after[j] == before[j]);
                    }
                }
            }
            let n = digits + (i - start);
            lemma_pow16_mono((n + 2) as nat, 32);
            assert(pow16((n + 1) as nat) == 16 * pow16(n as nat));
            assert(pow16((n + 2) as nat) == 16 * pow16((n + 1) as nat));
            assert(pow16((n + 2) as nat) == 256 * pow16(n as nat));
            assert(value * 256 + byte < pow16((n + 2) as nat)) by (nonlinear_arith)
                requires
                    value < pow16(n as nat),
                    byte < 256,
                    pow16((n + 2) as nat) == 256 * pow16(n as nat),
            ;
        }
        value = value * 256 + byte as u128;
        i = i + 2;
    }
    Ok(value)
}

/// Universally Unique IDentifier (UUID), see [RFC 4122].
///
/// [RFC 4122]: https://datatracker.ietf.org/doc/html/rfc4122
#[derive(Copy, Clone, Debug, PartialEq, Eq, Structural)]
pub struct Uuid(pub u128);

/// The 32 lower case hex digits of `value`, most significant first.
pub open spec fn hex32(value: u128) -> Seq<char> {
    Seq::new(32, |i: int| digit_char(((value as nat / pow16((31 - i) as nat)) % 16) as nat))
}

impl Uuid {
    /// The id as 32 lower case hex digits, the format of `/etc/machine-id`.
    pub fn to_string(&self) -> (text: String)
        ensures
            text@ == hex32(self.0),
    {
        let mut digits: Vec<char> = Vec::new();
        let mut w = self.0;
        assert(pow16(0) == 1);
        let mut k: usize = 0;
        while k < 32
            invariant
                k <= 32,
                digits@.len() == k,
                w as nat == self.0 as nat / pow16(k as nat),
                forall|j: int| 0 <= j < k ==> #[trigger] digits@[j] == digit_char(((self.0 as nat / pow16(j as nat)) % 16) as nat),
            decreases 32 - k,
        {
            proof {
                lemma_pow16_mono(0, k as nat);
                lemma_div_denominator(self.0 as int, pow16(k as nat) as int, 16);
                assert(pow16((k + 1) as nat) == pow16(k as nat) * 16);
            }
            digits.push(digit((w % 16) as u8));
            w = w / 16;
            k += 1;
        }
        let mut text = String::new();
        let mut i: usize = 0;
        while i < 32
            invariant
                i <= 32,
                digits@.len() == 32,
                forall|j: int| 0 <= j < 32 ==> #[trigger] digits@[j] == digit_char(((self.0 as nat / pow16(j as nat)) % 16) as nat),
                text@ == hex32(self.0).subrange(0, i as int),
            decreases 32 - i,
        {
            push_char(&mut text, digits[31 - i]);
            proof {
                assert(text@ =~= hex32(self.0).subrange(0, i + 1));
            }
            i += 1;
        }
        proof {
            assert(text@ =~= hex32(self.0));
        }
        text
    }
}

/// The bytes of a text of ASCII characters.
pub open spec fn ascii_bytes(text: Seq<char>) -> Seq<u8> {
    text.map_values(|c: char| c as u8)
}

/// The byte of a lower case hex digit reads back as that digit.
proof fn lemma_digit_char_value(d: nat)
    requires
        d < 16,
    ensures
        hex_value(digit_char(d) as u8) == Some(d as u8),
{
}

/// The first `k` digits of `value` read as a number are `value` with the
/// other `32 - k` digits cut off.
proof fn lemma_hex32_prefix(value: u128, k: nat)
    requires
        k <= 32,
    ensures
        all_hex(ascii_bytes(hex32(value)).take(k as int)),
        hex_number(ascii_bytes(hex32(value)).take(k as int)) == value as nat / pow16((32 - k) as nat),
    decreases k,
{
    let bytes = ascii_bytes(hex32(value));
    if k == 0 {
        lemma_pow16_32();
        assert(bytes.take(0) =~= Seq::<u8>::empty());
        assert(value as nat / pow16(32) == 0) by (nonlinear_arith)
            requires
                (value as nat) < pow16(32),
                pow16(32) > 0,
        ;
    } else {
        let j = (k - 1) as nat;
        lemma_hex32_prefix(value, j);
        let p = pow16((32 - k) as nat);
        lemma_pow16_mono(0, (32 - k) as nat);
        assert(pow16((32 - j) as nat) == 16 * p);
        let d = ((value as nat / p) % 16) as nat;
        assert(bytes[j as int] == digit_char(d) as u8);
        lemma_digit_char_value(d);
        assert(bytes.take(k as int).drop_last() =~= bytes.take(j as int));
        assert(bytes.take(k as int).last() == bytes[j as int]);
        assert forall|i: int| 0 <= i < k implies #[trigger] hex_value(bytes.take(k as int)[i]) is Some by {
            if i < j {
                assert(bytes.take(k as int)[i] == bytes.take(j as int)[i]);
            } else {
                assert(bytes.take(k as int)[i] == bytes[j as int]);
            }
        }
        let x = value as nat / p;
        lemma_div_denominator(value as int, p as int, 16);
        assert(value as nat / (p * 16) == x / 16);
        assert(16 * p == p * 16) by (nonlinear_arith);
        assert((x / 16) * 16 + x % 16 == x) by (nonlinear_arith);
    }
}

/// Writing an id and reading it back gives the same id: the 32 digits that
/// [`Uuid::to_string`] writes are hex digits, and [`from_hex`] reads them as
/// the id.
pub proof fn lemma_hex_round_trip(value: u128)
    ensures
        ascii_bytes(hex32(value)).len() == 32,
        all_hex(ascii_bytes(hex32(value))),
        hex_number(ascii_bytes(hex32(value))) == value,
{
    lemma_hex32_prefix(value, 32);
    assert(ascii_bytes(hex32(value)).take(32) =~= ascii_bytes(hex32(value)));
    assert(pow16(0) == 1);
    assert(value as nat / 1 == value as nat);
}

/// Parses 32 hex digits, upper or lower case, into a [`Uuid`].
pub fn from_hex(input: &[u8]) -> (uuid: Result<Uuid, ()>)
    requires
        input@.len() == 32,
    ensures
        match uuid {
            Ok(uuid) => all_hex(input@) && uuid.0 == hex_number(input@),
            Err(()) => !all_hex(input@),
        },
{
    proof {
        assert(input@.subrange(0, 32) =~= input@);
    }
    match hex_pairs(input, 0, 32, 0, Ghost(0)) {
        Ok(value) => Ok(Uuid(value)),
        Err(()) => Err(()),
    }
}

/// The hex digits of a hyphenated id: groups of 8, 4, 4, 4 and 12 digits,
/// each followed by a hyphen but the last.
pub open spec fn hyphenated_digits(s: Seq<u8>) -> Seq<u8> {
    s.subrange(0, 8) + s.subrange(9, 13) + s.subrange(14, 18) + s.subrange(19, 23) + s.subrange(24, 36)
}

/// The hyphens of a hyphenated id are in place: after each group of digits,
/// and after the last one if anything follows.
pub open spec fn hyphens_in_place(s: Seq<u8>) -> bool {
    &&& s[8] == 45
    &&& s[13] == 45
    &&& s[18] == 45
    &&& s[23] == 45
    &&& s.len() > 36 ==> s[36] == 45
}

/// Returns `true` if there is no byte at `index` of `input` or it's a hyphen.
fn hyphen_or_end(input: &[u8], index: usize) -> (ok: bool)
    ensures
        ok == (index >= input@.len() || input@[index as int] == 45),
{
    if index < input.len() {
        input[index] == 45
    } else {
        true
    }
}

/// Parses a hyphenated id, five groups of 8, 4, 4, 4 and 12 hex digits
/// separated by hyphens, into a [`Uuid`].
pub fn from_hex_hyphenated(input: &[u8]) -> (uuid: Result<Uuid, ()>)
    requires
        input@.len() >= 36,
    ensures
        match uuid {
            Ok(uuid) => {
                &&& all_hex(hyphenated_digits(input@))
                &&& hyphens_in_place(input@)
                &&& uuid.0 == hex_number(hyphenated_digits(input@))
            },
            Err(()) => !(all_hex(hyphenated_digits(input@)) && hyphens_in_place(input@)),
        },
{
    let ghost s = input@;
    let ghost g0 = s.subrange(0, 8);
    let ghost g1 = s.subrange(9, 13);
    let ghost g2 = s.subrange(14, 18);
    let ghost g3 = s.subrange(19, 23);
    let ghost g4 = s.subrange(24, 36);
    proof {
        lemma_all_hex_concat(g0, g1, g2, g3, g4);
    }
    let value = match hex_pairs(input, 0, 8, 0, Ghost(0)) {
        Ok(value) => value,
        Err(()) => return Err(()),
    };
    if !hyphen_or_end(input, 8) {
        return Err(());
    }
    let value = match hex_pairs(input, 9, 13, value, Ghost(8)) {
        Ok(value) => value,
        Err(()) => return Err(()),
    };
    if !hyphen_or_end(input, 13) {
        return Err(());
    }
    let value = match hex_pairs(input, 14, 18, value, Ghost(12)) {
        Ok(value) => value,
        Err(()) => return Err(()),
    };
    if !hyphen_or_end(input, 18) {
        return Err(());
    }
    let value = match hex_pairs(input, 19, 23, value, Ghost(16)) {
        Ok(value) => value,
        Err(()) => return Err(()),
    };
    if !hyphen_or_end(input, 23) {
        return Err(());
    }
    let value = match hex_pairs(input, 24, 36, value, Ghost(20)) {
        Ok(value) => value,
        Err(()) => return Err(()),
    };
    if !hyphen_or_end(input, 36) {
        return Err(());
    }
    proof {
        lemma_hex_append_concat(0, g0, g1);
        lemma_hex_append_concat(0, g0 + g1, g2);
        lemma_hex_append_concat(0, g0 + g1 + g2, g3);
        lemma_hex_append_concat(0, g0 + g1 + g2 + g3, g4);
    }
    Ok(Uuid(value))
}

/// The digits of five groups are all hex exactly when each group's are.
proof fn lemma_all_hex_concat(a: Seq<u8>, b: Seq<u8>, c: Seq<u8>, d: Seq<u8>, e: Seq<u8>)
    ensures
        all_hex(a + b + c + d + e) == (all_hex(a) && all_hex(b) && all_hex(c) && all_hex(d) && all_hex(e)),
{
    let s = a + b + c + d + e;
    if all_hex(s) {
        assert forall|i: int| 0 <= i < a.len() implies #[trigger] hex_value(a[i]) is Some by {
            assert(s[i] == a[i]);
        }
        assert forall|i: int| 0 <= i < b.len() implies #[trigger] hex_value(b[i]) is Some by {
            assert(s[a.len() + i] == b[i]);
        }
        assert forall|i: int| 0 <= i < c.len() implies #[trigger] hex_value(c[i]) is Some by {
            assert(s[a.len() + b.len() + i] == c[i]);
        }
        assert forall|i: int| 0 <= i < d.len() implies #[trigger] hex_value(d[i]) is Some by {
            assert(s[a.len() + b.len() + c.len() + i] == d[i]);
        }
        assert forall|i: int| 0 <= i < e.len() implies #[trigger] hex_value(e[i]) is Some by {
            assert(s[a.len() + b.len() + c.len() + d.len() + i] == e[i]);
        }
    }
    if all_hex(a) && all_hex(b) && all_hex(c) && all_hex(d) && all_hex(e) {
        assert forall|i: int| 0 <= i < s.len() implies #[trigger] hex_value(s[i]) is Some by {
            if i < a.len() {
                assert(s[i] == a[i]);
            } else if i < a.len() + b.len() {
                assert(s[i] == b[i - a.len()]);
            } else if i < a.len() + b.len() + c.len() {
                assert(s[i] == c[i - a.len() - b.len()]);
            } else if i < a.len() + b.len() + c.len() + d.len() {
                assert(s[i] == d[i - a.len() - b.len() - c.len()]);
            } else {
                assert(s[i] == e[i - a.len() - b.len() - c.len() - d.len()]);
            }
        }
    }
}

/// The number of bytes of the host id file, `/etc/machine-id`.
pub const EXPECTED_SIZE: usize = 32;

/// Why the host id could not be read from the bytes of the host id file.
#[derive(Copy, Clone, Debug, PartialEq, Eq, Structural)]
pub enum HostIdError {
    /// The file does not hold hex digits.
    NotHex,
    /// Only this many bytes could be read, not [`EXPECTED_SIZE`].
    ShortRead(usize),
}

/// The host id from the first `n` bytes read from the host id file into
/// `buf`: the id if exactly [`EXPECTED_SIZE`] hex digits were read.
pub fn host_id_from(buf: &[u8], n: usize) -> (host_id: Result<Uuid, HostIdError>)
    requires
        buf@.len() == EXPECTED_SIZE,
    ensures
        n != EXPECTED_SIZE ==> host_id == Err::<Uuid, HostIdError>(HostIdError::ShortRead(n)),
        n == EXPECTED_SIZE && all_hex(buf@) ==> host_id == Ok::<Uuid, HostIdError>(Uuid(hex_number(buf@) as u128)),
        n == EXPECTED_SIZE && !all_hex(buf@) ==> host_id == Err::<Uuid, HostIdError>(HostIdError::NotHex),
{
    if n == EXPECTED_SIZE {
        match from_hex(buf) {
            Ok(uuid) => Ok(uuid),
            Err(()) => Err(HostIdError::NotHex),
        }
    } else {
        Err(HostIdError::ShortRead(n))
    }
}

/// Info about the runtime and it's running environment.
#[derive(Debug)]
pub struct Info {
    host_release: String,
    host_id: Uuid,
    host_name: String,
    app_name: String,
}

impl Info {
    /// The OS name, version and release of the host.
    pub closed spec fn spec_host_release(&self) -> Seq<char> {
        self.host_release@
    }

    /// The id of the host.
    pub closed spec fn spec_host_id(&self) -> Uuid {
        self.host_id
    }

    /// The name of the host.
    pub closed spec fn spec_host_name(&self) -> Seq<char> {
        self.host_name@
    }

    /// The name of the application.
    pub closed spec fn spec_app_name(&self) -> Seq<char> {
        self.app_name@
    }

    /// Info from what the OS reports of itself: its name (`sysname`), release
    /// and version, and the host's name and id.
    pub fn new(app_name: String, sysname: &str, release: &str, version: &str, host_name: String, host_id: Uuid) -> (info: Info)
        ensures
            info.spec_app_name() == app_name@,
            info.spec_host_release() == sysname@ + seq![' '] + release@ + seq![' '] + version@,
            info.spec_host_name() == host_name@,
            info.spec_host_id() == host_id,
    {
        let mut host_release = String::new();
        push_str(&mut host_release, sysname);
        push_char(&mut host_release, ' ');
        push_str(&mut host_release, release);
        push_char(&mut host_release, ' ');
        push_str(&mut host_release, version);
        proof {
            assert(host_release@ =~= sysname@ + seq![' '] + release@ + seq![' '] + version@);
        }
        Info { host_release, host_id, host_name, app_name }
    }

    /// OS name.
    pub fn host_os(&self) -> (os: &'static str)
        ensures
            os@ == "GNU/Linux"@,
    {
        "GNU/Linux"
    }

    /// OS version.
    pub fn host_release(&self) -> (release: &str)
        ensures
            release@ == self.spec_host_release(),
    {
        self.host_release.as_str()
    }

    /// Id of the host.
    pub fn host_id(&self) -> (host_id: Uuid)
        ensures
            host_id == self.spec_host_id(),
    {
        self.host_id
    }

    /// Name of the host.
    pub fn host_name(&self) -> (name: &str)
        ensures
            name@ == self.spec_host_name(),
    {
        self.host_name.as_str()
    }

    /// Name of the application.
    pub fn app_name(&self) -> (name: &str)
        ensures
            name@ == self.spec_app_name(),
    {
        self.app_name.as_str()
    }
}

} // verus!
