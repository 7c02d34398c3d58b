//! Coordinates, the cache keys that stand for them, and the place names that
//! a reverse geocoder gives for them.
//!
//! A coordinate is kept as it is recorded: degrees, minutes and seconds, each
//! a fraction, with a hemisphere. Its cache key is its position in
//! millionths of a degree, cut off towards zero.

use crate::cache::GPSCache;
use crate::numeral::{
    decimal, lemma_signed_decimal_chars, lemma_signed_decimal_injective, magnitude, padded_decimal,
    push_decimal, push_padded_decimal, push_signed_decimal, signed_decimal,
};
use crate::text::{chars_of, push_all, replace_char, string_of, trim_range, trimmed};
use vstd::prelude::*;

verus! {

/// The name that stands for a place that could not be resolved.
pub open spec fn unknown_place() -> Seq<char> {
    "UnknownPlace"@
}

/// A fraction of two unsigned 32-bit numbers.
#[derive(Clone, Copy, Debug, PartialEq, Eq, Structural)]
pub struct Rational {
    pub num: u32,
    pub denom: u32,
}

/// An angle in degrees, minutes and seconds; `negative` for south and west.
#[derive(Clone, Copy, Debug, PartialEq, Eq, Structural)]
pub struct Angle {
    pub degrees: Rational,
    pub minutes: Rational,
    pub seconds: Rational,
    pub negative: bool,
}

/// A position: latitude and longitude.
#[derive(Clone, Copy, Debug, PartialEq, Eq, Structural)]
pub struct Coordinate {
    pub lat: Angle,
    pub lon: Angle,
}

/// The answer of the reverse geocoder, as far as it is read.
pub struct NominatimResponse {
    pub display_name: String,
}

impl Angle {
    /// No fraction has the denominator zero.
    pub open spec fn wf(self) -> bool {
        self.degrees.denom > 0 && self.minutes.denom > 0 && self.seconds.denom > 0
    }

    /// The denominator of the angle's size in degrees, as one fraction.
    pub open spec fn denominator(self) -> int {
        3600 * self.degrees.denom * self.minutes.denom * self.seconds.denom
    }

    /// The numerator of the angle's size in degrees, over `denominator()`:
    /// degrees, a sixtieth of the minutes and a 3600th of the seconds.
    pub open spec fn numerator(self) -> int {
        self.degrees.num * 3600 * self.minutes.denom * self.seconds.denom + self.minutes.num * 60
            * self.degrees.denom * self.seconds.denom + self.seconds.num * self.degrees.denom
            * self.minutes.denom
    }

    /// The whole millionths of a degree in the angle's size.
    pub open spec fn micro_magnitude(self) -> int {
        (self.numerator() * 1_000_000) / self.denominator()
    }

    /// The angle in millionths of a degree, cut off towards zero.
    pub open spec fn micro_degrees(self) -> int {
        if self.negative {
            -self.micro_magnitude()
        } else {
            self.micro_magnitude()
        }
    }

    /// Whether no fraction has the denominator zero.
    pub fn is_valid(&self) -> (ok: bool)
        ensures
            ok == self.wf(),
    {
        self.degrees.denom > 0 && self.minutes.denom > 0 && self.seconds.denom > 0
    }

    /// The angle in millionths of a degree, cut off towards zero.
    pub fn to_micro_degrees(&self) -> (micro: i64)
        requires
            self.wf(),
        ensures
            micro == self.micro_degrees(),
    {
        let dn: u128 = self.degrees.num as u128;
        let dd: u128 = self.degrees.denom as u128;
        let mn: u128 = self.minutes.num as u128;
        let md: u128 = self.minutes.denom as u128;
        let sn: u128 = self.seconds.num as u128;
        let sd: u128 = self.seconds.denom as u128;
        proof {
            lemma_product_bound(md as int, sd as int);
            lemma_product_bound(dd as int, sd as int);
            lemma_product_bound(dd as int, md as int);
        }
        let md_sd: u128 = md * sd;
        let dd_sd: u128 = dd * sd;
        let dd_md: u128 = dd * md;
        proof {
            lemma_triple_bound(dn as int, md_sd as int);
            lemma_triple_bound(mn as int, dd_sd as int);
            lemma_triple_bound(sn as int, dd_md as int);
            lemma_triple_bound(sd as int, dd_md as int);
        }
        let from_degrees: u128 = dn * md_sd * 3600;
        let from_minutes: u128 = mn * dd_sd * 60;
        let from_seconds: u128 = sn * dd_md;
        let numerator: u128 = from_degrees + from_minutes + from_seconds;
        let denominator: u128 = sd * dd_md * 3600;
        proof {
            assert(numerator == self.numerator()) by (nonlinear_arith)
                requires
                    numerator == dn * (md * sd) * 3600 + mn * (dd * sd) * 60 + sn * (dd * md),
                    self.numerator() == dn * 3600 * md * sd + mn * 60 * dd * sd + sn * dd * md,
            ;
            assert(denominator == self.denominator()) by (nonlinear_arith)
                requires
                    denominator == sd * (dd * md) * 3600,
                    self.denominator() == 3600 * dd * md * sd,
            ;
            assert(denominator > 0) by (nonlinear_arith)
                requires
                    denominator == sd * (dd * md) * 3600,
                    dd > 0,
                    md > 0,
                    sd > 0,
            ;
            lemma_whole_degrees_bound(
                dn as int,
                dd as int,
                mn as int,
                md as int,
                sn as int,
                sd as int,
            );
        }
        let scaled: u128 = numerator * 1_000_000;
        let whole: u128 = scaled / denominator;
        proof {
            assert(whole <= (dn + mn + sn) * 1_000_000) by (nonlinear_arith)
                requires
                    whole == scaled / denominator,
                    denominator > 0,
                    scaled <= ((dn + mn + sn) * 1_000_000) * denominator,
            ;
        }
        if self.negative {
            -(whole as i64)
        } else {
            whole as i64
        }
    }
}

/// A product of two 32-bit numbers.
proof fn lemma_product_bound(a: int, b: int)
    requires
        0 <= a <= 0xffff_ffff,
        0 <= b <= 0xffff_ffff,
    ensures
        0 <= a * b <= 0xffff_fffe_0000_0001,
{
    assert(0 <= a * b <= 0xffff_ffff * 0xffff_ffff) by (nonlinear_arith)
        requires
            0 <= a <= 0xffff_ffff,
            0 <= b <= 0xffff_ffff,
    ;
}

/// A product of three 32-bit numbers.
proof fn lemma_triple_bound(a: int, bc: int)
    requires
        0 <= a <= 0xffff_ffff,
        0 <= bc <= 0xffff_fffe_0000_0001,
    ensures
        0 <= a * bc <= 0xffff_fffd_0000_0002_ffff_ffff,
{
    assert(0 <= a * bc <= 0xffff_ffff * 0xffff_fffe_0000_0001) by (nonlinear_arith)
        requires
            0 <= a <= 0xffff_ffff,
            0 <= bc <= 0xffff_fffe_0000_0001,
    ;
}

/// An angle is no larger than the sum of its three numerators.
proof fn lemma_whole_degrees_bound(dn: int, dd: int, mn: int, md: int, sn: int, sd: int)
    requires
        0 <= dn,
        0 <= mn,
        0 <= sn,
        1 <= dd,
        1 <= md,
        1 <= sd,
    ensures
        (dn * (md * sd) * 3600 + mn * (dd * sd) * 60 + sn * (dd * md)) * 1_000_000 <= ((dn + mn
            + sn) * 1_000_000) * (sd * (dd * md) * 3600),
{
    let d = sd * (dd * md) * 3600;
    assert(dn * (md * sd) * 3600 <= dn * d) by (nonlinear_arith)
        requires
            0 <= dn,
            1 <= dd,
            1 <= md,
            1 <= sd,
            d == sd * (dd * md) * 3600,
    ;
    assert(mn * (dd * sd) * 60 <= mn * d) by (nonlinear_arith)
        requires
            0 <= mn,
            1 <= dd,
            1 <= md,
            1 <= sd,
            d == sd * (dd * md) * 3600,
    ;
    assert(sn * (dd * md) <= sn * d) by (nonlinear_arith)
        requires
            0 <= sn,
            1 <= dd,
            1 <= md,
            1 <= sd,
            d == sd * (dd * md) * 3600,
    ;
    assert((dn * d + mn * d + sn * d) * 1_000_000 == ((dn + mn + sn) * 1_000_000) * d)
        by (nonlinear_arith);
}

impl Coordinate {
    /// Both angles are in order.
    pub open spec fn wf(self) -> bool {
        self.lat.wf() && self.lon.wf()
    }

    /// Whether both angles are in order.
    pub fn is_valid(&self) -> (ok: bool)
        ensures
            ok == self.wf(),
    {
        self.lat.is_valid() && self.lon.is_valid()
    }

    /// Latitude and longitude in millionths of a degree.
    pub open spec fn key(self) -> (int, int) {
        (self.lat.micro_degrees(), self.lon.micro_degrees())
    }
}

/// The text of a cache key: the two numbers with an underscore between them.
pub open spec fn cache_key_text(key: (int, int)) -> Seq<char> {
    signed_decimal(key.0) + seq!['_'] + signed_decimal(key.1)
}

/// Millionths of a degree written in degrees, with six decimal places.
pub open spec fn degrees_text(micro: int) -> Seq<char> {
    let sign = if micro < 0 {
        seq!['-']
    } else {
        Seq::empty()
    };
    sign + decimal(magnitude(micro) / 1_000_000) + seq!['.'] + padded_decimal(
        magnitude(micro) % 1_000_000,
        6,
    )
}

/// The address at which the reverse geocoder is asked for a position.
pub open spec fn nominatim_url(key: (int, int)) -> Seq<char> {
    "https://nominatim.openstreetmap.org/reverse?format=json&lat="@ + degrees_text(key.0)
        + "&lon="@ + degrees_text(key.1) + "&zoom=10&addressdetails=0"@
}

/// `s` up to its first comma, or all of it where it has none.
pub open spec fn before_comma(s: Seq<char>) -> Seq<char> {
    if s.contains(',') {
        s.take(crate::utils::first_index_of(s, ','))
    } else {
        s
    }
}

/// The place name in a display name: what stands before the first comma,
/// trimmed, with an underscore for each space.
pub open spec fn place_name(display_name: Seq<char>) -> Seq<char> {
    replace_char(trimmed(before_comma(display_name)), ' ', '_')
}

/// The place name that an answer of the geocoder gives; `UnknownPlace` where
/// there is no answer.
pub open spec fn resolved_place(response: Option<NominatimResponse>) -> Seq<char> {
    match response {
        Some(answer) => place_name(answer.display_name@),
        None => unknown_place(),
    }
}

/// The position in millionths of a degree, each axis cut off towards zero.
pub fn to_key(coordinate: &Coordinate) -> (key: (i64, i64))
    requires
        coordinate.wf(),
    ensures
        (key.0 as int, key.1 as int) == coordinate.key(),
{
    (coordinate.lat.to_micro_degrees(), coordinate.lon.to_micro_degrees())
}

/// The cache key of a position.
pub fn to_cache_key(coordinate: &Coordinate) -> (key: String)
    requires
        coordinate.wf(),
    ensures
        key@ == cache_key_text(coordinate.key()),
{
    let (lat, lon) = to_key(coordinate);
    let mut text: Vec<char> = Vec::new();
    push_signed_decimal(&mut text, lat);
    text.push('_');
    push_signed_decimal(&mut text, lon);
    assert(text@ =~= cache_key_text(coordinate.key()));
    string_of(&text)
}

fn push_degrees(out: &mut Vec<char>, micro: i64)
    ensures
        final(out)@ == old(out)@ + degrees_text(micro as int),
{
    let size: u64 = if micro < 0 {
        out.push('-');
        (-(micro + 1)) as u64 + 1
    } else {
        micro as u64
    };
    push_decimal(out, size / 1_000_000);
    out.push('.');
    push_padded_decimal(out, size % 1_000_000, 6);
    assert(out@ =~= old(out)@ + degrees_text(micro as int));
}

/// The address at which the reverse geocoder is asked for a position.
pub fn build_nominatim_url(coordinate: &Coordinate) -> (url: String)
    requires
        coordinate.wf(),
    ensures
        url@ == nominatim_url(coordinate.key()),
{
    let (lat, lon) = to_key(coordinate);
    let mut url = chars_of("https://nominatim.openstreetmap.org/reverse?format=json&lat=");
    push_degrees(&mut url, lat);
    push_all(&mut url, &chars_of("&lon="));
    push_degrees(&mut url, lon);
    push_all(&mut url, &chars_of("&zoom=10&addressdetails=0"));
    string_of(&url)
}

/// The place name in a display name of the geocoder.
pub fn extract_place_name(display_name: &str) -> (place: String)
    ensures
        place@ == place_name(display_name@),
{
    let chars = chars_of(display_name);
    let mut end: usize = 0;
    while end < chars.len() && chars[end] != ','
        invariant
            end <= chars.len(),
            forall|j: int| 0 <= j < end ==> chars@[j] != ',',
        decreases chars.len() - end,
    {
        end += 1;
    }
    proof {
        if end < chars.len() {
            assert(chars@.contains(','));
            let f = crate::utils::first_index_of(chars@, ',');
            assert(0 <= f < chars@.len() && chars@[f] == ',' && forall|j: int|
                0 <= j < f ==> chars@[j] != ',');
            assert(f == end);
        } else {
            assert(!chars@.contains(','));
            assert(chars@.take(end as int) == chars@);
        }
    }
    let kept = trim_range(&chars, 0, end);
    assert(chars@.subrange(0, end as int) == chars@.take(end as int));
    let mut place: Vec<char> = Vec::new();
    let mut i: usize = 0;
    while i < kept.len()
        invariant
            i <= kept.len(),
            place@.len() == i,
            forall|j: int| 0 <= j < i ==> place@[j] == replace_char(kept@, ' ', '_')[j],
        decreases kept.len() - i,
    {
        let c = kept[i];
        place.push(if c == ' ' {
            '_'
        } else {
            c
        });
        i += 1;
    }
    assert(place@ =~= replace_char(kept@, ' ', '_'));
    string_of(&place)
}

/// The place name stored for a position, if the cache holds one.
pub fn cached_place(coordinate: &Coordinate, cache: &GPSCache) -> (place: Option<String>)
    requires
        coordinate.wf(),
        cache.wf(),
    ensures
        match place {
            Some(name) => cache@.contains_key(cache_key_text(coordinate.key())) && name@
                == cache@[cache_key_text(coordinate.key())],
            None => !cache@.contains_key(cache_key_text(coordinate.key())),
        },
{
    let key = to_cache_key(coordinate);
    match cache.get(key.as_str()) {
        Some(name) => Some(name.clone()),
        None => None,
    }
}

/// The place name of a position and whether the cache was changed for it.
///
/// Where the cache holds the position's key, the stored name is returned,
/// `response` is not looked at and the cache stays as it is. Otherwise the name
/// is taken from `response`, the answer of the geocoder for
/// `build_nominatim_url` (none where the request failed or the answer could
/// not be read); it is stored under the key and returned.
pub fn gps_to_place(
    coordinate: &Coordinate,
    cache: &mut GPSCache,
    response: Option<NominatimResponse>,
) -> (result: (Option<String>, bool))
    requires
        coordinate.wf(),
        old(cache).wf(),
    ensures
        final(cache).wf(),
        result.0 is Some,
        ({
            let key = cache_key_text(coordinate.key());
            if old(cache)@.contains_key(key) {
                &&& result.0->0@ == old(cache)@[key]
                &&& !result.1
                &&& final(cache)@ == old(cache)@
            } else {
                &&& result.0->0@ == resolved_place(response)
                &&& result.1
                &&& final(cache)@ == old(cache)@.insert(key, resolved_place(response))
            }
        }),
{
    let key = to_cache_key(coordinate);
    match cache.get(key.as_str()) {
        Some(name) => {
            return (Some(name.clone()), false);
        },
        None => {},
    }
    let place = match response {
        Some(answer) => extract_place_name(answer.display_name.as_str()),
        None => "UnknownPlace".to_owned(),
    };
    cache.insert(key, place.clone());
    (Some(place), true)
}

/// Different positions in millionths of a degree have different cache keys.
pub proof fn lemma_cache_key_injective(a: (int, int), b: (int, int))
    requires
        cache_key_text(a) == cache_key_text(b),
    ensures
        a == b,
{
    lemma_signed_decimal_chars(a.0);
    lemma_signed_decimal_chars(a.1);
    lemma_signed_decimal_chars(b.0);
    lemma_signed_decimal_chars(b.1);
    let ka = cache_key_text(a);
    let kb = cache_key_text(b);
    let la = signed_decimal(a.0).len() as int;
    let lb = signed_decimal(b.0).len() as int;
    assert(ka[la] == '_');
    assert(kb[lb] == '_');
    if la < lb {
        assert(kb[la] == signed_decimal(b.0)[la]);
    } else if lb < la {
        assert(ka[lb] == signed_decimal(a.0)[lb]);
    }
    assert(ka.take(la) =~= signed_decimal(a.0));
    assert(kb.take(lb) =~= signed_decimal(b.0));
    assert(ka.skip(la + 1) =~= signed_decimal(a.1));
    assert(kb.skip(lb + 1) =~= signed_decimal(b.1));
    lemma_signed_decimal_injective(a.0, b.0);
    lemma_signed_decimal_injective(a.1, b.1);
}

/// Two positions have the same cache key exactly when they lie in the same
/// millionth of a degree on both axes.
pub proof fn lemma_same_key_same_bucket(a: Coordinate, b: Coordinate)
    ensures
        cache_key_text(a.key()) == cache_key_text(b.key()) <==> a.key() == b.key(),
{
    if cache_key_text(a.key()) == cache_key_text(b.key()) {
        lemma_cache_key_injective(a.key(), b.key());
    }
}

/// The position that a key stands for is less than a millionth of a degree
/// away from the angle, towards zero: `micro_magnitude` millionths are no
/// more than the angle, and one more millionth is more than the angle.
pub proof fn lemma_key_is_bucket(angle: Angle)
    requires
        angle.wf(),
    ensures
        angle.micro_magnitude() * angle.denominator() <= angle.numerator() * 1_000_000,
        angle.numerator() * 1_000_000 < (angle.micro_magnitude() + 1) * angle.denominator(),
        angle.micro_magnitude() >= 0,
{
    let n = angle.numerator() * 1_000_000;
    let d = angle.denominator();
    assert(d > 0) by (nonlinear_arith)
        requires
            d == 3600 * angle.degrees.denom * angle.minutes.denom * angle.seconds.denom,
            angle.degrees.denom > 0,
            angle.minutes.denom > 0,
            angle.seconds.denom > 0,
    ;
    assert(n >= 0) by (nonlinear_arith)
        requires
            n == (angle.degrees.num * 3600 * angle.minutes.denom * angle.seconds.denom
                + angle.minutes.num * 60 * angle.degrees.denom * angle.seconds.denom
                + angle.seconds.num * angle.degrees.denom * angle.minutes.denom) * 1_000_000,
            angle.degrees.num >= 0,
            angle.minutes.num >= 0,
            angle.seconds.num >= 0,
            angle.degrees.denom > 0,
            angle.minutes.denom > 0,
            angle.seconds.denom > 0,
    ;
    assert((n / d) * d <= n && n < (n / d + 1) * d && n / d >= 0) by (nonlinear_arith)
        requires
            d > 0,
            n >= 0,
    ;
}

} // verus!
