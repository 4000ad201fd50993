//! Decoding of frame names of the form `<tag>-<layer>-<ordinal>`.

use vstd::prelude::*;

use crate::sheet::{LayerName, SheetError};
use crate::tags::{tag_of, TagVocabulary};

verus! {

/// `d` is the first `-` of `s` at or after `start`.
pub open spec fn first_dash_from(s: Seq<char>, start: int, d: int) -> bool {
    0 <= start <= d < s.len() && s[d] == '-' && forall|k: int| start <= k < d ==> s[k] != '-'
}

/// The positions of the first two `-` of `s`.
pub open spec fn two_dashes(s: Seq<char>, d1: int, d2: int) -> bool {
    first_dash_from(s, 0, d1) && first_dash_from(s, d1 + 1, d2)
}

/// The first two `-`-separated fields of `s`, if `s` has at least three.
pub open spec fn leading_fields(s: Seq<char>) -> Option<(Seq<char>, Seq<char>)> {
    if exists|d1: int, d2: int| two_dashes(s, d1, d2) {
        let (d1, d2) = choose|d1: int, d2: int| two_dashes(s, d1, d2);
        Some((s.subrange(0, d1), s.subrange(d1 + 1, d2)))
    } else {
        None
    }
}

/// The tag and layer that the frame name `s` encodes: the first field names
/// a tag of `names` without regard to ASCII case, the second is the layer.
pub open spec fn decode_spec(names: Seq<Seq<char>>, s: Seq<char>) -> Result<
    (int, Seq<char>),
    SheetError,
> {
    match leading_fields(s) {
        None => Err(SheetError::InvalidFilenameFormat),
        Some((tag, layer)) => match tag_of(names, tag) {
            None => Err(SheetError::UnknownAnimationTag),
            Some(t) => Ok((t, layer)),
        },
    }
}

/// `e` ends the field of `s` that follows the `-` at `d`: the next `-`, or
/// the end of `s`.
pub open spec fn field_end(s: Seq<char>, d: int, e: int) -> bool {
    0 <= d < e <= s.len() && (e == s.len() || s[e] == '-') && forall|k: int|
        d < k < e ==> s[k] != '-'
}

/// Where the field that follows the `-` at `d` ends.
pub open spec fn field_end_after(s: Seq<char>, d: int) -> int {
    choose|e: int| field_end(s, d, e)
}

/// The third `-`-separated field of `s`, if `s` has at least three.
pub open spec fn third_field(s: Seq<char>) -> Option<Seq<char>> {
    if exists|d1: int, d2: int| two_dashes(s, d1, d2) {
        let (d1, d2) = choose|d1: int, d2: int| two_dashes(s, d1, d2);
        Some(s.subrange(d2 + 1, field_end_after(s, d2)))
    } else {
        None
    }
}

pub open spec fn is_digit(c: char) -> bool {
    48 <= (c as u32) && (c as u32) <= 57
}

/// `s` is a non-empty run of decimal digits.
pub open spec fn is_decimal(s: Seq<char>) -> bool {
    s.len() > 0 && forall|i: int| 0 <= i < s.len() ==> is_digit(#[trigger] s[i])
}

/// The number that the decimal digits `s` write.
pub open spec fn decimal_value(s: Seq<char>) -> int
    decreases s.len(),
{
    if s.len() == 0 {
        0
    } else {
        decimal_value(s.drop_last()) * 10 + ((s.last() as u32) - 48)
    }
}

/// The ordinal that a field writes: a decimal number that fits in `u64`.
pub open spec fn ordinal_of(f: Seq<char>) -> Option<u64> {
    if is_decimal(f) && decimal_value(f) <= u64::MAX {
        Some(decimal_value(f) as u64)
    } else {
        None
    }
}

/// Digits only add to the value: a prefix writes no more than the whole.
proof fn lemma_decimal_prefix(s: Seq<char>, k: int)
    requires
        is_decimal(s),
        0 <= k <= s.len(),
    ensures
        0 <= decimal_value(s.subrange(0, k)) <= decimal_value(s),
    decreases s.len() - k,
{
    if k < s.len() {
        lemma_decimal_prefix(s, k + 1);
        let p = s.subrange(0, k + 1);
        assert(p.drop_last() =~= s.subrange(0, k));
        assert(is_digit(s[k]));
    } else {
        assert(s.subrange(0, k) =~= s);
        lemma_decimal_nonneg(s);
    }
}

proof fn lemma_decimal_nonneg(s: Seq<char>)
    requires
        forall|i: int| 0 <= i < s.len() ==> is_digit(#[trigger] s[i]),
    ensures
        decimal_value(s) >= 0,
    decreases s.len(),
{
    if s.len() > 0 {
        lemma_decimal_nonneg(s.drop_last());
        assert(is_digit(s[s.len() - 1]));
    }
}

/// Reads the chars `from..to` of `s` as an ordinal.
fn parse_ordinal(s: &str, from: usize, to: usize) -> (r: Option<u64>)
    requires
        from <= to <= s@.len(),
    ensures
        r == ordinal_of(s@.subrange(from as int, to as int)),
{
    let ghost f = s@.subrange(from as int, to as int);
    if from == to {
        return None;
    }
    let mut v: u64 = 0;
    let mut i: usize = from;
    assert(f.subrange(0, 0) =~= Seq::<char>::empty());
    while i < to
        invariant
            from < to <= s@.len(),
            f == s@.subrange(from as int, to as int),
            from <= i <= to,
            forall|k: int| 0 <= k < i - from ==> is_digit(#[trigger] f[k]),
            v == decimal_value(f.subrange(0, i - from)),
        decreases to - i,
    {
        let c = s.get_char(i);
        let code = c as u32;
        if code < 48 || code > 57 {
            assert(!is_digit(f[i - from]));
            return None;
        }
        let ghost p = f.subrange(0, i - from + 1);
        assert(p.drop_last() =~= f.subrange(0, i - from));
        assert(p.last() == c);
        let d = (code - 48) as u64;
        if v > (u64::MAX - d) / 10 {
            proof {
                assert(decimal_value(p) == v * 10 + d);
                assert(v * 10 + d > u64::MAX) by (nonlinear_arith)
                    requires
                        v > (u64::MAX - d) / 10,
                        d <= 9,
                ;
                if is_decimal(f) {
                    lemma_decimal_prefix(f, i - from + 1);
                }
            }
            return None;
        }
        v = v * 10 + d;
        i = i + 1;
    }
    assert(f.subrange(0, to - from) =~= f);
    Some(v)
}

proof fn lemma_first_dash_unique(s: Seq<char>, start: int, a: int, b: int)
    requires
        first_dash_from(s, start, a),
        first_dash_from(s, start, b),
    ensures
        a == b,
{
    if a < b {
        assert(s[a] != '-');
    } else if b < a {
        assert(s[b] != '-');
    }
}

/// What a frame name encodes.
pub struct DecodedFrame {
    pub tag: usize,
    pub layer: LayerName,
    /// The third field read as a decimal number, where it is one; it is not
    /// checked against the frame's position.
    pub ordinal: Option<u64>,
}

proof fn lemma_field_end_unique(s: Seq<char>, d: int, a: int, b: int)
    requires
        field_end(s, d, a),
        field_end(s, d, b),
    ensures
        a == b,
{
    if a < b {
        assert(s[a] != '-');
    } else if b < a {
        assert(s[b] != '-');
    }
}

fn find_dash(s: &str, start: usize, n: usize) -> (r: Option<usize>)
    requires
        n == s@.len(),
        start <= n,
    ensures
        match r {
            Some(d) => first_dash_from(s@, start as int, d as int),
            None => forall|k: int| start <= k < n ==> s@[k] != '-',
        },
{
    let mut i: usize = start;
    while i < n
        invariant
            n == s@.len(),
            start <= i <= n,
            forall|k: int| start <= k < i ==> s@[k] != '-',
        decreases n - i,
    {
        if s.get_char(i) == '-' {
            return Some(i);
        }
        i = i + 1;
    }
    None
}

/// Decodes a frame name: fails with `InvalidFilenameFormat` where it holds
/// fewer than three `-`-separated fields, and with `UnknownAnimationTag`
/// where its first field names no tag; fields after the third are ignored.
pub fn decode_filename(vocab: &TagVocabulary, name: &str) -> (r: Result<DecodedFrame, SheetError>)
    requires
        vocab.wf(),
    ensures
        match r {
            Ok(d) => decode_spec(vocab@, name@) == Ok::<(int, Seq<char>), SheetError>(
                (d.tag as int, d.layer.view()),
            ) && d.ordinal == ordinal_of(third_field(name@)->0),
            Err(e) => decode_spec(vocab@, name@) == Err::<(int, Seq<char>), SheetError>(e),
        },
{
    let n = name.unicode_len();
    let d1 = match find_dash(name, 0, n) {
        Some(d) => d,
        None => {
            return Err(SheetError::InvalidFilenameFormat);
        },
    };
    let d2 = match find_dash(name, d1 + 1, n) {
        Some(d) => d,
        None => {
            proof {
                assert forall|a: int, b: int| !two_dashes(name@, a, b) by {
                    if two_dashes(name@, a, b) {
                        lemma_first_dash_unique(name@, 0, a, d1 as int);
                        assert(name@[b] == '-');
                    }
                }
            }
            return Err(SheetError::InvalidFilenameFormat);
        },
    };
    proof {
        assert(two_dashes(name@, d1 as int, d2 as int));
        let (a, b) = choose|a: int, b: int| two_dashes(name@, a, b);
        lemma_first_dash_unique(name@, 0, a, d1 as int);
        lemma_first_dash_unique(name@, d1 + 1, b, d2 as int);
    }
    let tag = vocab.parse(name.substring_char(0, d1));
    match tag {
        None => Err(SheetError::UnknownAnimationTag),
        Some(t) => {
            let layer = name.substring_char(d1 + 1, d2).to_owned();
            let end = match find_dash(name, d2 + 1, n) {
                Some(e) => e,
                None => n,
            };
            proof {
                assert(field_end(name@, d2 as int, end as int));
                lemma_field_end_unique(name@, d2 as int, end as int, field_end_after(name@, d2 as int));
            }
            let ordinal = parse_ordinal(name, d2 + 1, end);
            Ok(DecodedFrame { tag: t, layer: LayerName(layer), ordinal })
        },
    }
}

} // verus!
