//! The two output documents of a traverse, as bytes.
//!
//! The path document lists the ring as lines of `longitude,latitude,0`. The
//! polygon document lists the closed ring as `[longitude, latitude]` pairs.
//! Both take the vertices in counterclockwise order.

use vstd::prelude::*;
use vstd::string::StringSliceAdditionalSpecFns;
use crate::decimal::{
    all_digits, decimal_magnitude, decimal_value, digits_value, fraction_part,
    fraction_value, has_sign, is_decimal, is_negative, kept_fraction, lemma_digit_run,
    lemma_digits_push, lemma_pow10_12, pow10, tail_part, unsigned_part, whole_part, SCALE,
};
use crate::ring::{closed, normalize, normalized, polygon_ring, Vertex};

verus! {

/// The decimal digits of `n`, without leading zeros; one zero for zero.
pub open spec fn digit_text(n: nat) -> Seq<u8>
    decreases n,
{
    if n < 10 {
        seq![(48 + n) as u8]
    } else {
        digit_text(n / 10).push((48 + n % 10) as u8)
    }
}

/// The last `width` decimal digits of `n`, with leading zeros where `n` has
/// fewer.
pub open spec fn padded_text(n: nat, width: nat) -> Seq<u8>
    decreases width,
{
    if width == 0 {
        Seq::empty()
    } else {
        padded_text(n / 10, (width - 1) as nat).push((48 + n % 10) as u8)
    }
}

/// The digits after the point for a fraction of `n` units of ten to the
/// power minus `width`: the `width` digits of `n` without the zeros at their
/// end, so none at all for zero.
pub open spec fn fraction_text(n: nat, width: nat) -> Seq<u8>
    decreases width,
{
    if n == 0 || width == 0 {
        Seq::empty()
    } else if n % 10 == 0 {
        fraction_text(n / 10, (width - 1) as nat)
    } else {
        padded_text(n, width)
    }
}

/// The numeral of a value given in units of 10^-12: a minus sign where it is
/// negative, its whole digits, and, where it has a fraction, a point and the
/// fraction digits.
pub open spec fn decimal_text(v: int) -> Seq<u8> {
    let size = if v < 0 {
        (-v) as nat
    } else {
        v as nat
    };
    let sign = if v < 0 {
        seq![45u8]
    } else {
        Seq::empty()
    };
    let fraction = fraction_text(size % (SCALE as nat), 12);
    let point = if fraction.len() > 0 {
        seq![46u8]
    } else {
        Seq::empty()
    };
    sign + digit_text(size / (SCALE as nat)) + point + fraction
}

/// One line of the path document.
pub open spec fn path_line(v: Vertex) -> Seq<u8> {
    decimal_text(v.lon as int) + ",".spec_bytes() + decimal_text(v.lat as int) + ",0\n".spec_bytes()
}

/// The lines of the path document for the first `k` vertices of a ring.
pub open spec fn path_lines(ring: Seq<Vertex>, k: nat) -> Seq<u8>
    decreases k,
{
    if k == 0 {
        Seq::empty()
    } else {
        path_lines(ring, (k - 1) as nat) + path_line(ring[k - 1])
    }
}

/// One line of the polygon document. Every pair but the last of the ring is
/// followed by a comma.
pub open spec fn polygon_line(v: Vertex, last: bool) -> Seq<u8> {
    "          [".spec_bytes() + decimal_text(v.lon as int) + ", ".spec_bytes() + decimal_text(
        v.lat as int,
    ) + if last {
        "]\n".spec_bytes()
    } else {
        "],\n".spec_bytes()
    }
}

/// The lines of the polygon document for the first `k` vertices of a ring.
pub open spec fn polygon_lines(ring: Seq<Vertex>, k: nat) -> Seq<u8>
    decreases k,
{
    if k == 0 {
        Seq::empty()
    } else {
        polygon_lines(ring, (k - 1) as nat) + polygon_line(ring[k - 1], k == ring.len())
    }
}

/// What the path document holds before its lines.
pub const PATH_HEAD: &'static str =
    "<?xml version=\"1.0\" encoding=\"UTF-8\"?>\n<kml xmlns=\"http://www.opengis.net/kml/2.2\">\n<Document>\n<Placemark>\n<Polygon>\n<outerBoundaryIs>\n<LinearRing>\n<coordinates>\n";

/// What the path document holds after its lines.
pub const PATH_TAIL: &'static str =
    "</coordinates>\n</LinearRing>\n</outerBoundaryIs>\n</Polygon>\n</Placemark>\n</Document>\n</kml>\n";

/// What the polygon document holds before its lines.
pub const POLYGON_HEAD: &'static str =
    "{\n  \"type\": \"FeatureCollection\",\n  \"features\": [\n    {\n      \"type\": \"Feature\",\n      \"geometry\": {\n        \"type\": \"Polygon\",\n        \"coordinates\": [\n          [\n";

/// What the polygon document holds after its lines.
pub const POLYGON_TAIL: &'static str =
    "          ]\n        ]\n      },\n      \"properties\": {}\n    }\n  ]\n}\n";

/// The path document of a traverse: the ring in counterclockwise order, one
/// vertex to a line, not closed.
pub open spec fn path_text(coordinates: Seq<Vertex>) -> Seq<u8> {
    PATH_HEAD.spec_bytes() + path_lines(normalized(coordinates), coordinates.len())
        + PATH_TAIL.spec_bytes()
}

/// The polygon document of a traverse: the ring in counterclockwise order,
/// closed by its first vertex. Without vertices the ring in it is empty.
pub open spec fn polygon_text(coordinates: Seq<Vertex>) -> Seq<u8> {
    POLYGON_HEAD.spec_bytes() + polygon_lines(
        closed(normalized(coordinates)),
        closed(normalized(coordinates)).len(),
    ) + POLYGON_TAIL.spec_bytes()
}

/// A fraction that is not zero has digits after the point.
proof fn lemma_fraction_shown(n: nat, width: nat)
    requires
        0 < n < pow10(width),
    ensures
        fraction_text(n, width).len() > 0,
    decreases width,
{
    if width > 0 && n % 10 == 0 {
        lemma_fraction_shown(n / 10, (width - 1) as nat);
    }
}

/// The digits of a number are digits, and write that number.
proof fn lemma_digit_text(n: nat)
    ensures
        digit_text(n).len() >= 1,
        all_digits(digit_text(n)),
        digits_value(digit_text(n)) == n,
    decreases n,
{
    if n < 10 {
        lemma_digits_push(Seq::empty(), (48 + n) as u8);
        assert(digit_text(n) =~= Seq::<u8>::empty().push((48 + n) as u8));
    } else {
        lemma_digit_text(n / 10);
        lemma_digits_push(digit_text(n / 10), (48 + n % 10) as u8);
    }
}

/// The digits of a number at a fixed width are digits, as many as the
/// width, and write that number where it is below ten to the width.
proof fn lemma_padded_text(n: nat, width: nat)
    requires
        n < pow10(width),
    ensures
        padded_text(n, width).len() == width,
        all_digits(padded_text(n, width)),
        digits_value(padded_text(n, width)) == n,
    decreases width,
{
    if width > 0 {
        lemma_padded_text(n / 10, (width - 1) as nat);
        lemma_digits_push(padded_text(n / 10, (width - 1) as nat), (48 + n % 10) as u8);
    }
}

/// The fraction digits are digits, at most as many as the width, and with
/// zeros filled in after them they write the fraction.
proof fn lemma_fraction_text(n: nat, width: nat)
    requires
        n < pow10(width),
    ensures
        fraction_text(n, width).len() <= width,
        all_digits(fraction_text(n, width)),
        digits_value(fraction_text(n, width)) * pow10(
            (width - fraction_text(n, width).len()) as nat,
        ) == n,
    decreases width,
{
    if n == 0 || width == 0 {
        assert(digits_value(Seq::<u8>::empty()) * pow10(width) == 0) by (nonlinear_arith)
            requires
                digits_value(Seq::<u8>::empty()) == 0,
        ;
    } else if n % 10 == 0 {
        lemma_fraction_text(n / 10, (width - 1) as nat);
        let shown = fraction_text(n / 10, (width - 1) as nat);
        let value = digits_value(shown);
        let fill = pow10((width - 1 - shown.len()) as nat);
        assert(pow10((width - shown.len()) as nat) == 10 * fill);
        assert(value * (10 * fill) == 10 * (value * fill)) by (nonlinear_arith);
    } else {
        lemma_padded_text(n, width);
        assert(digits_value(padded_text(n, width)) * pow10(0) == n) by (nonlinear_arith)
            requires
                digits_value(padded_text(n, width)) == n,
                pow10(0) == 1,
        ;
    }
}

/// A numeral made of an optional minus sign, whole digits and, behind a
/// point, fraction digits is read as just these parts.
proof fn lemma_parts_read_back(negative: bool, whole: Seq<u8>, fraction: Seq<u8>)
    requires
        whole.len() >= 1,
        all_digits(whole),
        all_digits(fraction),
    ensures
        ({
            let sign = if negative {
                seq![45u8]
            } else {
                Seq::empty()
            };
            let point = if fraction.len() > 0 {
                seq![46u8]
            } else {
                Seq::empty()
            };
            let text = sign + whole + point + fraction;
            &&& is_decimal(text)
            &&& is_negative(text) == negative
            &&& whole_part(text) == whole
            &&& fraction_part(text) == fraction
        }),
{
    let sign = if negative {
        seq![45u8]
    } else {
        Seq::<u8>::empty()
    };
    let point = if fraction.len() > 0 {
        seq![46u8]
    } else {
        Seq::<u8>::empty()
    };
    let text = sign + whole + point + fraction;
    let body = whole + point + fraction;
    assert(text[0] == if negative { 45u8 } else { whole[0] });
    assert(has_sign(text) == negative);
    assert(unsigned_part(text) =~= body);
    assert forall|j: int| 0 <= j < whole.len() implies crate::decimal::is_digit(body[j]) by {
        assert(body[j] == whole[j]);
    }
    if whole.len() < body.len() {
        assert(body[whole.len() as int] == 46u8);
    }
    lemma_digit_run(body, whole.len() as int);
    assert(whole_part(text) =~= whole);
    assert(tail_part(text) =~= point + fraction);
    assert(fraction_part(text) =~= fraction);
    lemma_digit_run(fraction, fraction.len() as int);
}

/// What `decimal_text` writes, `decimal_value` reads back: the numeral of a
/// value is a numeral, and its value is the value written. This holds of
/// every value whose negation is in range too.
pub proof fn lemma_written_reads_back(v: int)
    requires
        -i64::MAX <= v <= i64::MAX,
    ensures
        decimal_value(decimal_text(v)) == Some(v),
{
    let size = if v < 0 {
        (-v) as nat
    } else {
        v as nat
    };
    let whole = digit_text(size / (SCALE as nat));
    let fraction = fraction_text(size % (SCALE as nat), 12);
    lemma_pow10_12();
    lemma_digit_text(size / (SCALE as nat));
    lemma_fraction_text(size % (SCALE as nat), 12);
    lemma_parts_read_back(v < 0, whole, fraction);
    let text = decimal_text(v);
    assert(kept_fraction(text) =~= fraction);
    assert(fraction_value(text) == size % (SCALE as nat));
    assert(decimal_magnitude(text) == size);
}

fn push_text(out: &mut Vec<u8>, text: &str)
    ensures
        final(out)@ == old(out)@ + text.spec_bytes(),
{
    let bytes = text.as_bytes();
    let mut i: usize = 0;
    assert(bytes@.take(0) =~= Seq::<u8>::empty());
    while i < bytes.len()
        invariant
            i <= bytes.len(),
            out@ == old(out)@ + bytes@.take(i as int),
        decreases bytes.len() - i,
    {
        out.push(bytes[i]);
        i = i + 1;
        assert(bytes@.take(i as int) =~= bytes@.take(i - 1).push(bytes@[i - 1]));
    }
    assert(bytes@.take(i as int) =~= bytes@);
}

fn push_digits(out: &mut Vec<u8>, n: u64)
    ensures
        final(out)@ == old(out)@ + digit_text(n as nat),
    decreases n,
{
    if n >= 10 {
        push_digits(out, n / 10);
    }
    out.push(48 + (n % 10) as u8);
}

fn push_padded(out: &mut Vec<u8>, n: u64, width: usize)
    ensures
        final(out)@ == old(out)@ + padded_text(n as nat, width as nat),
    decreases width,
{
    if width > 0 {
        push_padded(out, n / 10, width - 1);
        out.push(48 + (n % 10) as u8);
    }
}

fn push_fraction(out: &mut Vec<u8>, n: u64, width: usize)
    ensures
        final(out)@ == old(out)@ + fraction_text(n as nat, width as nat),
{
    let mut rest: u64 = n;
    let mut left: usize = width;
    while rest != 0 && left != 0 && rest % 10 == 0
        invariant
            fraction_text(rest as nat, left as nat) == fraction_text(n as nat, width as nat),
        decreases left,
    {
        rest = rest / 10;
        left = left - 1;
    }
    if rest != 0 && left != 0 {
        push_padded(out, rest, left);
    } else {
        assert(out@ + Seq::<u8>::empty() =~= out@);
    }
}

/// Appends the numeral of `v` to `out`.
pub fn push_decimal(out: &mut Vec<u8>, v: i64)
    ensures
        final(out)@ == old(out)@ + decimal_text(v as int),
{
    let size: u64 = if v < 0 {
        (-(v as i128)) as u64
    } else {
        v as u64
    };
    let ghost before = out@;
    if v < 0 {
        out.push(45);
    }
    push_digits(out, size / 1_000_000_000_000);
    let fraction: u64 = size % 1_000_000_000_000;
    if fraction != 0 {
        out.push(46);
        proof {
            lemma_pow10_12();
            lemma_fraction_shown(fraction as nat, 12);
        }
    }
    push_fraction(out, fraction, 12);
    assert(out@ =~= before + decimal_text(v as int));
}

/// Writes a value given in units of 10^-12 as a numeral.
pub fn format_decimal(v: i64) -> (text: Vec<u8>)
    ensures
        text@ == decimal_text(v as int),
{
    let mut text: Vec<u8> = Vec::new();
    push_decimal(&mut text, v);
    assert(Seq::<u8>::empty() + decimal_text(v as int) =~= decimal_text(v as int));
    text
}

fn push_path_line(out: &mut Vec<u8>, v: Vertex)
    ensures
        final(out)@ == old(out)@ + path_line(v),
{
    let ghost before = out@;
    push_decimal(out, v.lon);
    push_text(out, ",");
    push_decimal(out, v.lat);
    push_text(out, ",0\n");
    assert(out@ =~= before + path_line(v));
}

fn push_polygon_line(out: &mut Vec<u8>, v: Vertex, last: bool)
    ensures
        final(out)@ == old(out)@ + polygon_line(v, last),
{
    let ghost before = out@;
    push_text(out, "          [");
    push_decimal(out, v.lon);
    push_text(out, ", ");
    push_decimal(out, v.lat);
    if last {
        push_text(out, "]\n");
    } else {
        push_text(out, "],\n");
    }
    assert(out@ =~= before + polygon_line(v, last));
}

/// Renders the path document of a traverse.
pub fn path_document(coordinates: &Vec<Vertex>) -> (text: Vec<u8>)
    ensures
        text@ == path_text(coordinates@),
{
    let ring = normalize(coordinates);
    let mut text: Vec<u8> = Vec::new();
    push_text(&mut text, PATH_HEAD);
    assert(text@ =~= PATH_HEAD.spec_bytes());
    let mut i: usize = 0;
    assert(text@ =~= PATH_HEAD.spec_bytes() + path_lines(ring@, 0));
    while i < ring.len()
        invariant
            i <= ring.len(),
            text@ == PATH_HEAD.spec_bytes() + path_lines(ring@, i as nat),
        decreases ring.len() - i,
    {
        push_path_line(&mut text, ring[i]);
        i = i + 1;
        assert(text@ =~= PATH_HEAD.spec_bytes() + path_lines(ring@, i as nat));
    }
    push_text(&mut text, PATH_TAIL);
    assert(ring@.len() == coordinates@.len());
    text
}

/// Renders the polygon document of a traverse.
pub fn polygon_document(coordinates: &Vec<Vertex>) -> (text: Vec<u8>)
    ensures
        text@ == polygon_text(coordinates@),
{
    let ring = polygon_ring(coordinates);
    let mut text: Vec<u8> = Vec::new();
    push_text(&mut text, POLYGON_HEAD);
    assert(text@ =~= POLYGON_HEAD.spec_bytes());
    let mut i: usize = 0;
    assert(text@ =~= POLYGON_HEAD.spec_bytes() + polygon_lines(ring@, 0));
    while i < ring.len()
        invariant
            i <= ring.len(),
            text@ == POLYGON_HEAD.spec_bytes() + polygon_lines(ring@, i as nat),
        decreases ring.len() - i,
    {
        push_polygon_line(&mut text, ring[i], i + 1 == ring.len());
        i = i + 1;
        assert(text@ =~= POLYGON_HEAD.spec_bytes() + polygon_lines(ring@, i as nat));
    }
    push_text(&mut text, POLYGON_TAIL);
    text
}

} // verus!
