//! Discord snowflake identifiers.
//!
//! Layout of the 64-bit id (most significant bit first):
//!   timestamp since the Discord epoch (ms) in bits 63..22,
//!   worker id in bits 21..17, process id in bits 16..12,
//!   per-process increment in bits 11..0.
use vstd::prelude::*;
use crate::text::{dec, dec_string, parse_u64_chars, parse_u64_spec, chars_of};

verus! {

/// Discord epoch: 2015-01-01T00:00:00Z in Unix milliseconds.
pub const DISCORD_EPOCH_MS: u64 = 1_420_070_400_000;

/// A Discord id. Serialized as a decimal string on the wire.
#[derive(Debug, Clone, Copy, PartialEq, Eq, Structural, Hash, PartialOrd, Ord, Default)]
pub struct Snowflake(pub u64);

/// Error of [`Snowflake::parse`]: the text is not a decimal `u64`.
#[derive(Debug, Clone, Copy, PartialEq, Eq, Structural)]
pub struct ParseSnowflakeError;

impl Snowflake {
    pub fn from_u64(n: u64) -> (s: Self)
        ensures
            s.0 == n,
    {
        Snowflake(n)
    }

    pub fn empty() -> (s: Self)
        ensures
            s.0 == 0,
    {
        Snowflake(0)
    }

    /// Creation time in Unix milliseconds.
    pub fn timestamp_ms(&self) -> (r: u64)
        ensures
            r == self.0 / 4_194_304 + DISCORD_EPOCH_MS,
    {
        let x = self.0;
        assert(x >> 22u64 == x / 4_194_304) by (bit_vector);
        assert(x / 4_194_304 <= 4_398_046_511_103) by (bit_vector);
        (x >> 22) + DISCORD_EPOCH_MS
    }

    pub fn worker_id(&self) -> (r: u8)
        ensures
            r == (self.0 / 131_072) % 32,
    {
        let x = self.0;
        assert((x >> 17u64) & 0x1Fu64 == (x / 131_072) % 32) by (bit_vector);
        ((x >> 17) & 0x1F) as u8
    }

    pub fn process_id(&self) -> (r: u8)
        ensures
            r == (self.0 / 4_096) % 32,
    {
        let x = self.0;
        assert((x >> 12u64) & 0x1Fu64 == (x / 4_096) % 32) by (bit_vector);
        ((x >> 12) & 0x1F) as u8
    }

    pub fn increment(&self) -> (r: u16)
        ensures
            r == self.0 % 4_096,
    {
        let x = self.0;
        assert(x & 0xFFFu64 == x % 4_096) by (bit_vector);
        (x & 0xFFF) as u16
    }

    pub fn is_empty(&self) -> (r: bool)
        ensures
            r == (self.0 == 0),
    {
        self.0 == 0
    }

    pub fn as_u64(&self) -> (r: u64)
        ensures
            r == self.0,
    {
        self.0
    }

    /// Decimal rendering, the wire and display form of an id.
    pub fn to_decimal(&self) -> (s: String)
        ensures
            s@ == dec(self.0 as nat),
    {
        dec_string(self.0)
    }

    /// Parse the decimal wire form (same grammar as `u64::from_str`).
    pub fn parse(s: &str) -> (r: Result<Snowflake, ParseSnowflakeError>)
        ensures
            parse_u64_spec(s@) matches Some(n) ==> r == Ok::<Snowflake, ParseSnowflakeError>(Snowflake(n)),
            parse_u64_spec(s@) is None ==> r is Err,
    {
        let cs = chars_of(s);
        match parse_u64_chars(cs.as_slice()) {
            Some(n) => Ok(Snowflake(n)),
            None => Err(ParseSnowflakeError),
        }
    }
}

/// Marker for the Discord epoch.
pub struct DiscordEpoch;

impl DiscordEpoch {
    pub fn as_ms() -> (r: u64)
        ensures
            r == DISCORD_EPOCH_MS,
    {
        DISCORD_EPOCH_MS
    }
}


impl From<u64> for Snowflake {
    fn from(n: u64) -> (s: Snowflake) {
        Snowflake(n)
    }
}

impl vstd::std_specs::convert::FromSpecImpl<u64> for Snowflake {
    open spec fn obeys_from_spec() -> bool {
        true
    }

    open spec fn from_spec(n: u64) -> Snowflake {
        Snowflake(n)
    }
}

impl From<Snowflake> for u64 {
    fn from(s: Snowflake) -> (n: u64) {
        s.0
    }
}

impl vstd::std_specs::convert::FromSpecImpl<Snowflake> for u64 {
    open spec fn obeys_from_spec() -> bool {
        true
    }

    open spec fn from_spec(s: Snowflake) -> u64 {
        s.0
    }
}


pub(crate) proof fn lemma_dec_digits(n: nat)
    ensures
        crate::text::all_digits(dec(n)),
        crate::text::digits_value(dec(n)) == n,
        dec(n).len() > 0,
        dec(n)[0] != '+',
    decreases n,
{
    if n >= 10 {
        lemma_dec_digits(n / 10);
        let d = dec(n / 10);
        let e = d.push(crate::text::digit_char(n % 10));
        assert(e.drop_last() =~= d);
        assert forall|i: int| 0 <= i < e.len() implies crate::text::is_digit(#[trigger] e[i]) by {
            if i < d.len() {
                assert(e[i] == d[i]);
            }
        }
        assert(e[0] == d[0]);
        assert((crate::text::digit_char(n % 10) as nat) == n % 10 + 48);
        assert(e.last() == crate::text::digit_char(n % 10));
        assert(crate::text::digits_value(e) == crate::text::digits_value(d) * 10 + n % 10);
        assert(n == (n / 10) * 10 + n % 10);
    } else {
        let e = dec(n);
        assert(e =~= seq![crate::text::digit_char(n)]);
        assert(e.drop_last() =~= Seq::<char>::empty());
        assert(e.last() == crate::text::digit_char(n));
        assert((crate::text::digit_char(n) as nat) == n + 48);
        assert(crate::text::digits_value(Seq::<char>::empty()) == 0);
        assert(crate::text::digits_value(e) == n);
    }
}

/// A snowflake's decimal text parses back to the same snowflake.
pub proof fn law_decimal_round_trip(s: Snowflake)
    ensures
        crate::text::parse_u64_spec(dec(s.0 as nat)) == Some(s.0),
{
    lemma_dec_digits(s.0 as nat);
}
} // verus!
