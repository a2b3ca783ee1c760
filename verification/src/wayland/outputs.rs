//! The layout of the outputs (monitors) that the compositor advertises.

use vstd::prelude::*;

use crate::text::chars::{
    chars_of, cut, lemma_cut_at, lemma_find, lemma_trim_trimmed, split, split_once, split_str, string_of, trim,
    trim_str,
};
use crate::text::number::{
    decimal, decimal_of, lemma_signed_plain, lemma_signed_round_trip, parse_i32, read_i32,
    signed_decimal,
};

verus! {

/// Output size in logical pixels, used to anchor layer-shell surfaces.
pub const OUTPUT_W: i32 = 1280;

/// Output height in logical pixels.
pub const OUTPUT_H: i32 = 800;

/// One output (monitor) in the layout: a name and a position + size in the
/// global compositor coordinate space.
#[derive(Debug, Clone, PartialEq)]
pub struct OutputInfo {
    pub name: String,
    pub x: i32,
    pub y: i32,
    pub w: i32,
    pub h: i32,
}

/// An [`OutputInfo`] as a mathematical value.
#[verifier::ext_equal]
pub struct OutputView {
    pub name: Seq<char>,
    pub x: int,
    pub y: int,
    pub w: int,
    pub h: int,
}

impl View for OutputInfo {
    type V = OutputView;

    open spec fn view(&self) -> OutputView {
        OutputView {
            name: self.name@,
            x: self.x as int,
            y: self.y as int,
            w: self.w as int,
            h: self.h as int,
        }
    }
}

/// The values of outputs.
pub open spec fn output_views(outputs: Seq<OutputInfo>) -> Seq<OutputView> {
    Seq::new(outputs.len(), |i: int| outputs[i]@)
}

/// The name of the output at an index.
pub open spec fn output_name(idx: nat) -> Seq<char> {
    "s-compositor-"@ + decimal(idx)
}

/// Two numbers with a separator between them.
pub open spec fn read_pair(s: Seq<char>, separator: char) -> Option<(int, int)> {
    match cut(s, separator) {
        Some((a, b)) => match (read_i32(trim(a)), read_i32(trim(b))) {
            (Some(m), Some(n)) => Some((m, n)),
            _ => None,
        },
        None => None,
    }
}

/// The output that `WxH+X+Y`, or `WxH` at the origin, stands for.
pub open spec fn read_output(spec: Seq<char>, idx: nat) -> Option<OutputView> {
    let (size, position) = match cut(spec, '+') {
        Some((size, position)) => (read_pair(size, 'x'), read_pair(position, '+')),
        None => (read_pair(spec, 'x'), Some((0, 0))),
    };
    match (size, position) {
        (Some((w, h)), Some((x, y))) => Some(OutputView { name: output_name(idx), x, y, w, h }),
        _ => None,
    }
}

/// `s` with semicolons in place of commas.
pub open spec fn semicolons(s: Seq<char>) -> Seq<char> {
    Seq::new(
        s.len(),
        |i: int|
            if s[i] == ',' {
                ';'
            } else {
                s[i]
            },
    )
}

/// The outputs of the parts that stand for one. A part counts in the numbering
/// whether or not it does.
pub open spec fn read_outputs(parts: Seq<Seq<char>>) -> Seq<OutputView>
    decreases parts.len(),
{
    if parts.len() == 0 {
        seq![]
    } else {
        let rest = read_outputs(parts.drop_last());
        match read_output(trim(parts.last()), (parts.len() - 1) as nat) {
            Some(output) => rest.push(output),
            None => rest,
        }
    }
}

/// A single output at the origin.
pub open spec fn default_output() -> OutputView {
    OutputView {
        name: "s-compositor-0"@,
        x: 0,
        y: 0,
        w: OUTPUT_W as int,
        h: OUTPUT_H as int,
    }
}

/// The layout that a list of outputs, separated by semicolons or commas, stands
/// for.
pub open spec fn layout(spec: Option<Seq<char>>) -> Seq<OutputView> {
    match spec {
        Some(spec) => {
            let outputs = read_outputs(split(semicolons(spec), ';'));
            if outputs.len() > 0 {
                outputs
            } else {
                seq![default_output()]
            }
        },
        None => seq![default_output()],
    }
}

/// Two numbers with a separator between them.
fn parse_pair(s: &str, separator: char) -> (r: Option<(i32, i32)>)
    ensures
        match r {
            Some((a, b)) => read_pair(s@, separator) == Some((a as int, b as int)),
            None => read_pair(s@, separator) is None,
        },
{
    let (a, b) = split_once(s, separator)?;
    let m = parse_i32(trim_str(a))?;
    let n = parse_i32(trim_str(b))?;
    Some((m, n))
}

/// Parse one `WxH+X+Y` (or bare `WxH`) output specification.
pub fn parse_output(spec: &str, idx: usize) -> (r: Option<OutputInfo>)
    ensures
        match r {
            Some(output) => read_output(spec@, idx as nat) == Some(output@),
            None => read_output(spec@, idx as nat) is None,
        },
{
    let (size, pos) = match split_once(spec, '+') {
        Some((s, p)) => (s, Some(p)),
        None => (spec, None),
    };
    let (w, h) = parse_pair(size, 'x')?;
    let (x, y) = match pos {
        Some(p) => parse_pair(p, '+')?,
        None => (0i32, 0i32),
    };
    let mut name = "s-compositor-".to_string();
    name.append(decimal_of(idx as u64).as_str());
    Some(OutputInfo { name, x, y, w, h })
}

/// `s` with semicolons in place of commas.
fn with_semicolons(s: &str) -> (r: String)
    ensures
        r@ == semicolons(s@),
{
    let cs = chars_of(s);
    let mut out: Vec<char> = Vec::new();
    for i in 0..cs.len()
        invariant
            out@ =~= semicolons(cs@).take(i as int),
    {
        if cs[i] == ',' {
            out.push(';');
        } else {
            out.push(cs[i]);
        }
    }
    assert(out@ =~= semicolons(cs@));
    string_of(out.as_slice())
}

/// The output layout that `spec` lists (e.g. `1280x800+0+0;1280x800+1280+0` for
/// two side-by-side monitors); by default a single `OUTPUT_W`x`OUTPUT_H` output
/// at the origin.
pub fn output_layout(spec: Option<&str>) -> (r: Vec<OutputInfo>)
    ensures
        output_views(r@) == layout(
            match spec {
                Some(s) => Some(s@),
                None => None,
            },
        ),
        r.len() > 0,
{
    if let Some(spec) = spec {
        let list = with_semicolons(spec);
        let parts = split_str(list.as_str(), ';');
        let ghost all = split(semicolons(spec@), ';');
        let mut outs: Vec<OutputInfo> = Vec::new();
        assert(output_views(outs@) =~= read_outputs(all.take(0)));
        for i in 0..parts.len()
            invariant
                parts.len() == all.len(),
                forall|k: int| 0 <= k < parts.len() ==> (#[trigger] parts@[k])@ == all[k],
                output_views(outs@) == read_outputs(all.take(i as int)),
        {
            let ghost before = outs@;
            proof {
                assert(all.take(i + 1).drop_last() =~= all.take(i as int));
                assert(all.take(i + 1).last() == all[i as int]);
            }
            if let Some(output) = parse_output(trim_str(parts[i]), i) {
                outs.push(output);
                assert(output_views(outs@) =~= output_views(before).push(output@));
            }
        }
        assert(all.take(all.len() as int) =~= all);
        if outs.len() > 0 {
            assert(output_views(outs@).len() == outs.len());
            return outs;
        }
    }
    let mut outs: Vec<OutputInfo> = Vec::new();
    outs.push(
        OutputInfo { name: "s-compositor-0".to_string(), x: 0, y: 0, w: OUTPUT_W, h: OUTPUT_H },
    );
    assert(output_views(outs@) =~= seq![default_output()]);
    outs
}

/// A pair of numbers is read back.
proof fn lemma_pair_round_trip(a: int, separator: char, b: int)
    requires
        i32::MIN <= a <= i32::MAX,
        i32::MIN <= b <= i32::MAX,
        !('0' <= separator <= '9'),
        separator != '-',
    ensures
        read_pair(signed_decimal(a).push(separator) + signed_decimal(b), separator) == Some((a, b)),
{
    lemma_signed_plain(a, separator);
    lemma_signed_plain(b, separator);
    lemma_cut_at(signed_decimal(a), separator, signed_decimal(b));
    lemma_trim_trimmed(signed_decimal(a));
    lemma_trim_trimmed(signed_decimal(b));
    lemma_signed_round_trip(a);
    lemma_signed_round_trip(b);
}

/// `WxH+X+Y` stands for the output of that size at that position.
pub proof fn law_output_text_is_read(w: int, h: int, x: int, y: int, idx: nat)
    requires
        i32::MIN <= w <= i32::MAX,
        i32::MIN <= h <= i32::MAX,
        i32::MIN <= x <= i32::MAX,
        i32::MIN <= y <= i32::MAX,
    ensures
        read_output(
            signed_decimal(w).push('x') + signed_decimal(h).push('+') + signed_decimal(x).push('+')
                + signed_decimal(y),
            idx,
        ) == Some(OutputView { name: output_name(idx), x, y, w, h }),
{
    let size = signed_decimal(w).push('x') + signed_decimal(h);
    let position = signed_decimal(x).push('+') + signed_decimal(y);
    lemma_pair_round_trip(w, 'x', h);
    lemma_pair_round_trip(x, '+', y);
    lemma_signed_plain(w, '+');
    lemma_signed_plain(h, '+');
    if size.contains('+') {
        let i = choose|i: int| 0 <= i < size.len() && size[i] == '+';
        if i < signed_decimal(w).len() {
            assert(signed_decimal(w)[i] == '+');
        } else {
            assert(signed_decimal(h)[i - signed_decimal(w).len() - 1] == '+');
        }
    }
    lemma_cut_at(size, '+', position);
    assert(signed_decimal(w).push('x') + signed_decimal(h).push('+') + signed_decimal(x).push('+')
        + signed_decimal(y) =~= size.push('+') + position);
}

/// `WxH` stands for the output of that size at the origin.
pub proof fn law_bare_sizes_are_at_the_origin(w: int, h: int, idx: nat)
    requires
        i32::MIN <= w <= i32::MAX,
        i32::MIN <= h <= i32::MAX,
    ensures
        read_output(signed_decimal(w).push('x') + signed_decimal(h), idx) == Some(
            OutputView { name: "s-compositor-"@ + decimal(idx), x: 0, y: 0, w, h },
        ),
{
    let a = signed_decimal(w);
    let b = signed_decimal(h);
    let text = a.push('x') + b;
    lemma_signed_plain(w, 'x');
    lemma_signed_plain(w, '+');
    lemma_signed_plain(h, '+');
    lemma_signed_round_trip(w);
    lemma_signed_round_trip(h);
    lemma_find(text, '+');
    assert(!text.contains('+')) by {
        if text.contains('+') {
            let i = choose|i: int| 0 <= i < text.len() && text[i] == '+';
            if i < a.len() {
                assert(a[i] == '+');
            } else {
                assert(i > a.len());
                assert(b[i - a.len() - 1] == '+');
            }
        }
    }
    lemma_cut_at(a, 'x', b);
    lemma_trim_trimmed(a);
    lemma_trim_trimmed(b);
}

/// Commas separate outputs as semicolons do, and without an output that can be
/// read there is a single one of 1280 by 800 pixels at the origin.
pub proof fn law_layouts_are_never_empty(spec: Option<Seq<char>>, other: Seq<char>)
    ensures
        layout(spec).len() > 0,
        spec is None ==> layout(spec) == seq![
            OutputView { name: "s-compositor-0"@, x: 0, y: 0, w: 1280, h: 800 },
        ],
        (spec matches Some(s) && s.len() == other.len() && forall|i: int|
            0 <= i < s.len() ==> (#[trigger] other[i]) == s[i] || (s[i] == ',' && other[i] == ';')
                || (s[i] == ';' && other[i] == ',')) ==> layout(Some(other)) == layout(spec),
{
    if let Some(s) = spec {
        if s.len() == other.len() && forall|i: int|
            0 <= i < s.len() ==> (#[trigger] other[i]) == s[i] || (s[i] == ',' && other[i] == ';')
                || (s[i] == ';' && other[i] == ',') {
            assert(semicolons(s) =~= semicolons(other)) by {
                assert forall|i: int| 0 <= i < s.len() implies semicolons(s)[i] == semicolons(
                    other,
                )[i] by {
                    assert(other[i] == s[i] || (s[i] == ',' && other[i] == ';') || (s[i] == ';'
                        && other[i] == ','));
                }
            }
        }
    }
}

/// Every part of a list that can be read is an output, numbered by its place in
/// the list.
pub proof fn law_outputs_are_numbered_by_their_place(parts: Seq<Seq<char>>, i: int)
    requires
        0 <= i < parts.len(),
    ensures
        read_outputs(parts).len() <= parts.len(),
        read_output(trim(parts[i]), i as nat) matches Some(o) ==> read_outputs(parts).contains(o),
        (forall|k: int|
            0 <= k < parts.len() ==> read_output(trim(#[trigger] parts[k]), k as nat) is Some)
            ==> read_outputs(parts).len() == parts.len() && Some(read_outputs(parts)[i])
            == read_output(trim(parts[i]), i as nat),
    decreases parts.len(),
{
    let less = parts.drop_last();
    let last = parts.len() - 1;
    assert(parts.last() == parts[last]);
    let out = read_outputs(parts);
    let before = read_outputs(less);
    if less.len() > 0 {
        let k = if i < last {
            i
        } else {
            0
        };
        assert(less[k] == parts[k]);
        law_outputs_are_numbered_by_their_place(less, k);
        if forall|k: int|
            0 <= k < parts.len() ==> read_output(trim(#[trigger] parts[k]), k as nat) is Some {
            assert forall|k: int| 0 <= k < less.len() implies read_output(
                trim(#[trigger] less[k]),
                k as nat,
            ) is Some by {
                assert(less[k] == parts[k]);
            }
        }
    }
    if let Some(o) = read_output(trim(parts[i]), i as nat) {
        if i < last {
            let k = choose|k: int| 0 <= k < before.len() && before[k] == o;
            assert(out[k] == o);
        } else {
            assert(out[before.len() as int] == o);
        }
    }
}

} // verus!
