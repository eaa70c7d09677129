//! Parsing of the two free-form option values: the size-format word and the
//! comma-separated ignore list.

use crate::fileinfo::SizeFormat;
use crate::text::{spec_trim, str_eq, trim_str};
use vstd::prelude::*;
use vstd::string::{StrSliceExecFns, StringExecFns};

verus! {

/// What `str::to_lowercase` returns for a string; a fixed function of the
/// characters alone.
pub uninterp spec fn lower_of(s: Seq<char>) -> Seq<char>;

/// Relies on `str::to_lowercase` of std: the result depends on the
/// characters alone, and an empty string stays empty.
#[verifier::external_body]
fn lowercase(s: &str) -> (r: String)
    ensures
        r@ == lower_of(s@),
        s@.len() == 0 ==> r@.len() == 0,
{
    s.to_lowercase()
}

/// Which size format a lowercased word selects.
pub open spec fn spec_parse_size_format(s: Seq<char>) -> Option<SizeFormat> {
    let l = lower_of(s);
    if l == "by"@ || l == "bytes"@ {
        Some(SizeFormat::Bytes)
    } else if l == "bi"@ || l == "binary"@ {
        Some(SizeFormat::Binary)
    } else if l == "kb"@ || l == "mb"@ || l == "gb"@ || l == "tb"@ || l == "decimal"@ {
        Some(SizeFormat::Decimal)
    } else {
        None
    }
}

/// Parses the size-format word, case-insensitively; an unknown word is
/// reported back in the error message.
pub fn parse_size_format(format_str: &str) -> (r: Result<SizeFormat, String>)
    ensures
        match spec_parse_size_format(format_str@) {
            Some(f) => r matches Ok(g) && g == f,
            None => r matches Err(m) && m@ == "Unknown size format: "@ + format_str@,
        },
{
    let lower = lowercase(format_str);
    let l = lower.as_str();
    if str_eq(l, "by") || str_eq(l, "bytes") {
        Ok(SizeFormat::Bytes)
    } else if str_eq(l, "bi") || str_eq(l, "binary") {
        Ok(SizeFormat::Binary)
    } else if str_eq(l, "kb") || str_eq(l, "mb") || str_eq(l, "gb") || str_eq(l, "tb") || str_eq(
        l,
        "decimal",
    ) {
        Ok(SizeFormat::Decimal)
    } else {
        let mut message = "Unknown size format: ".to_owned();
        message.append(format_str);
        Err(message)
    }
}

/// The pieces of `s` between commas, in order; empty pieces included, and a
/// string without commas is one piece.
pub open spec fn spec_split_commas(s: Seq<char>) -> Seq<Seq<char>>
    decreases s.len(),
{
    if s.len() == 0 {
        seq![Seq::<char>::empty()]
    } else {
        let rest = spec_split_commas(s.drop_first());
        if s[0] == ',' {
            seq![Seq::<char>::empty()] + rest
        } else {
            seq![seq![s[0]] + rest[0]] + rest.drop_first()
        }
    }
}

/// The ignore list a comma-separated value denotes: each piece trimmed,
/// empty pieces dropped.
pub open spec fn spec_parse_ignore(s: Seq<char>) -> Seq<Seq<char>> {
    spec_split_commas(s).map_values(|p: Seq<char>| spec_trim(p)).filter(
        |p: Seq<char>| p.len() > 0,
    )
}

proof fn lemma_split_at_comma(s: Seq<char>, i: int)
    requires
        0 <= i < s.len(),
        s[i] == ',',
        forall|j: int| 0 <= j < i ==> s[j] != ',',
    ensures
        spec_split_commas(s) == seq![s.take(i)] + spec_split_commas(s.skip(i + 1)),
    decreases i,
{
    if i == 0 {
        assert(s.take(0) =~= Seq::<char>::empty());
        assert(s.skip(1) =~= s.drop_first());
        assert(spec_split_commas(s) =~= seq![s.take(0)] + spec_split_commas(s.skip(1)));
    } else {
        let d = s.drop_first();
        assert(d[i - 1] == ',');
        assert forall|j: int| 0 <= j < i - 1 implies d[j] != ',' by {
            assert(d[j] == s[j + 1]);
        }
        lemma_split_at_comma(d, i - 1);
        let rest = spec_split_commas(d);
        assert(rest[0] == d.take(i - 1));
        assert(seq![s[0]] + d.take(i - 1) =~= s.take(i));
        assert(rest.drop_first() =~= spec_split_commas(d.skip(i)));
        assert(d.skip(i) =~= s.skip(i + 1));
        assert(spec_split_commas(s) =~= seq![s.take(i)] + spec_split_commas(s.skip(i + 1)));
    }
}

proof fn lemma_split_no_comma(s: Seq<char>)
    requires
        forall|j: int| 0 <= j < s.len() ==> s[j] != ',',
    ensures
        spec_split_commas(s) == seq![s],
    decreases s.len(),
{
    if s.len() == 0 {
        assert(s =~= Seq::<char>::empty());
        assert(spec_split_commas(s) =~= seq![s]);
    } else {
        let d = s.drop_first();
        assert forall|j: int| 0 <= j < d.len() implies d[j] != ',' by {
            assert(d[j] == s[j + 1]);
        }
        lemma_split_no_comma(d);
        assert(seq![s[0]] + d =~= s);
        assert(spec_split_commas(s) =~= seq![s]);
    }
}

/// A parsed piece, prepended: trimming and filtering one split piece.
proof fn lemma_parse_ignore_step(piece: Seq<char>, rest: Seq<char>, s: Seq<char>)
    requires
        spec_split_commas(s) == seq![piece] + spec_split_commas(rest),
    ensures
        spec_parse_ignore(s) == (if spec_trim(piece).len() > 0 {
            seq![spec_trim(piece)]
        } else {
            Seq::<Seq<char>>::empty()
        }) + spec_parse_ignore(rest),
{
    let f = |p: Seq<char>| spec_trim(p);
    let pred = |p: Seq<char>| p.len() > 0;
    let mapped = spec_split_commas(s).map_values(f);
    let head = seq![piece].map_values(f);
    let tail = spec_split_commas(rest).map_values(f);
    assert(mapped =~= head + tail);
    Seq::filter_distributes_over_add(head, tail, pred);
    assert(head.filter(pred) + tail.filter(pred) == mapped.filter(pred));
    assert(head =~= seq![spec_trim(piece)]);
    assert(head.drop_last() =~= Seq::<Seq<char>>::empty());
    reveal_with_fuel(Seq::<Seq<char>>::filter, 2);
    if spec_trim(piece).len() > 0 {
        assert(head.filter(pred) =~= seq![spec_trim(piece)]);
    } else {
        assert(head.filter(pred) =~= Seq::<Seq<char>>::empty());
    }
}

/// Splits the ignore option at commas, trims each piece, and keeps the
/// non-empty results, in order.
pub fn parse_ignore_patterns(ignore_str: &str) -> (r: Vec<String>)
    ensures
        r@.map_values(|x: String| x@) == spec_parse_ignore(ignore_str@),
{
    let s = ignore_str;
    let n = s.unicode_len();
    let mut out: Vec<String> = Vec::new();
    let mut ps: usize = 0;
    let mut i: usize = 0;
    proof {
        assert(s@.skip(0) =~= s@);
        assert(out@.map_values(|x: String| x@) =~= Seq::<Seq<char>>::empty());
    }
    while i < n
        invariant
            ps <= i <= n,
            n == s@.len(),
            forall|j: int| ps <= j < i ==> s@[j] != ',',
            spec_parse_ignore(s@) == out@.map_values(|x: String| x@) + spec_parse_ignore(
                s@.skip(ps as int),
            ),
        decreases n - i,
    {
        if s.get_char(i) == ',' {
            let piece = s.substring_char(ps, i);
            let trimmed = trim_str(piece);
            let ghost old_out = out@;
            if trimmed.unicode_len() > 0 {
                out.push(trimmed.to_owned());
            }
            proof {
                let tail = s@.skip(ps as int);
                assert(tail[i - ps] == s@[i as int]);
                assert forall|j: int| 0 <= j < i - ps implies tail[j] != ',' by {
                    assert(tail[j] == s@[ps + j]);
                }
                lemma_split_at_comma(tail, i - ps);
                assert(tail.take(i - ps) =~= piece@);
                assert(tail.skip(i - ps + 1) =~= s@.skip(i + 1));
                lemma_parse_ignore_step(piece@, s@.skip(i + 1), tail);
                if spec_trim(piece@).len() > 0 {
                    assert(out@.map_values(|x: String| x@) =~= old_out.map_values(
                        |x: String| x@,
                    ).push(trimmed@));
                    assert(old_out.map_values(|x: String| x@).push(trimmed@) =~= old_out.map_values(
                        |x: String| x@,
                    ) + seq![spec_trim(piece@)]);
                } else {
                    assert(out@.map_values(|x: String| x@) =~= old_out.map_values(|x: String| x@));
                }
            }
            ps = i + 1;
        }
        i = i + 1;
    }
    let piece = s.substring_char(ps, n);
    let trimmed = trim_str(piece);
    let ghost old_out = out@;
    if trimmed.unicode_len() > 0 {
        out.push(trimmed.to_owned());
    }
    proof {
        let tail = s@.skip(ps as int);
        assert forall|j: int| 0 <= j < tail.len() implies tail[j] != ',' by {
            assert(tail[j] == s@[ps + j]);
        }
        lemma_split_no_comma(tail);
        assert(tail =~= piece@);
        let f = |p: Seq<char>| spec_trim(p);
        let pred = |p: Seq<char>| p.len() > 0;
        let mapped = spec_split_commas(tail).map_values(f);
        assert(mapped =~= seq![spec_trim(piece@)]);
        assert(mapped.drop_last() =~= Seq::<Seq<char>>::empty());
        reveal_with_fuel(Seq::<Seq<char>>::filter, 2);
        if spec_trim(piece@).len() > 0 {
            assert(mapped.filter(pred) =~= seq![spec_trim(piece@)]);
            assert(out@.map_values(|x: String| x@) =~= old_out.map_values(|x: String| x@).push(
                trimmed@,
            ));
            assert(old_out.map_values(|x: String| x@).push(trimmed@) =~= old_out.map_values(
                |x: String| x@,
            ) + seq![spec_trim(piece@)]);
        } else {
            assert(mapped.filter(pred) =~= Seq::<Seq<char>>::empty());
            assert(out@.map_values(|x: String| x@) =~= old_out.map_values(|x: String| x@));
            assert(old_out.map_values(|x: String| x@) + mapped.filter(pred) =~= old_out.map_values(
                |x: String| x@,
            ));
        }
    }
    out
}

} // verus!
