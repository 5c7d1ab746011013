//! Einsum.
//!
//! WebNN has no general contraction, so equations are lowered to a
//! transpose/reshape/matmul pipeline:
//!   * labels present in only one input and absent from the output are
//!     reduce-summed away first,
//!   * with two inputs, the remaining labels are batch (shared, kept),
//!     contracted (shared, summed) or free (of one input, kept); each operand
//!     is transposed to bring its groups together and flattened to rank 3, one
//!     batched matmul contracts them, and the output order is restored,
//!   * with one input, a transpose follows the sum.
//!
//! Rejected: ellipsis, repeated labels within one operand (diagonals), more
//! than two inputs, and operands whose static shapes are unknown.
use crate::arith;
use crate::builder;
use crate::builder::{
    BinaryOp, OnnxBuilder, OpV, Operand, OperandV, ReduceOp, label_with, list3,
};
use crate::context;
use crate::context::{ContextV, ConversionContext};
use crate::error;
use crate::error::{ErrorV, OnnxError};
use crate::ops;
use crate::ops::{ConversionResult, NodeOutcome, Part};
use crate::protos::{NodeProto, NodeV};
use crate::text;
use vstd::prelude::*;

verus! {

pub struct EinsumHandler;

// ---------------------------------------------------------------------------
// Equations
// ---------------------------------------------------------------------------

/// The labels of each input and of the output.
#[derive(Debug, PartialEq, Eq)]
pub struct ParsedEinsum {
    pub input_specs: Vec<Vec<char>>,
    pub output_spec: Vec<char>,
}

pub struct ParsedV {
    pub input_specs: Seq<Seq<char>>,
    pub output_spec: Seq<char>,
}

pub open spec fn specs_v(v: Seq<Vec<char>>) -> Seq<Seq<char>> {
    Seq::new(v.len(), |i: int| v[i]@)
}

impl View for ParsedEinsum {
    type V = ParsedV;

    open spec fn view(&self) -> ParsedV {
        ParsedV { input_specs: specs_v(self.input_specs@), output_spec: self.output_spec@ }
    }
}

/// The equation without white space.
pub open spec fn compact(s: Seq<char>) -> Seq<char> {
    s.filter(|c: char| !text::is_space(c))
}

/// The position of the arrow, or the length where there is none.
pub open spec fn arrow(s: Seq<char>) -> int
    decreases s.len(),
{
    if s.len() < 2 {
        s.len() as int
    } else if s[0] == '-' && s[1] == '>' {
        0
    } else {
        1 + arrow(s.drop_first())
    }
}

/// The terms between commas.
pub open spec fn split_terms(s: Seq<char>) -> Seq<Seq<char>>
    decreases s.len(),
{
    let p = text::first_pos(s, ',');
    if p < 0 || p >= s.len() {
        seq![s]
    } else {
        seq![s.take(p)] + split_terms(s.skip(p + 1))
    }
}

/// The first character of a term that is no label.
pub open spec fn first_invalid(t: Seq<char>) -> Option<char>
    decreases t.len(),
{
    if t.len() == 0 {
        None
    } else if !text::is_alphabetic(t[0]) {
        Some(t[0])
    } else {
        first_invalid(t.drop_first())
    }
}

/// What is wrong with a term.
pub open spec fn term_error(t: Seq<char>, equation: Seq<char>, name: Seq<char>) -> Option<ErrorV> {
    match first_invalid(t) {
        Some(c) => Some(
            ErrorV::InvalidShape(
                "Einsum equation "@ + text::debug_str(equation) + " contains invalid label "@
                    + text::debug_char(c),
            ),
        ),
        None => if !t.no_duplicates() {
            Some(error::unsupported("Einsum(repeated label in one term)"@, name))
        } else {
            None
        },
    }
}

/// What is wrong with the first term that has something wrong with it.
pub open spec fn terms_error(
    terms: Seq<Seq<char>>,
    equation: Seq<char>,
    name: Seq<char>,
) -> Option<ErrorV>
    decreases terms.len(),
{
    if terms.len() == 0 {
        None
    } else {
        match term_error(terms[0], equation, name) {
            Some(e) => Some(e),
            None => terms_error(terms.drop_first(), equation, name),
        }
    }
}

/// A term has this label.
pub open spec fn has_label(specs: Seq<Seq<char>>, c: char) -> bool {
    exists|i: int| 0 <= i < specs.len() && (#[trigger] specs[i]).contains(c)
}

/// How many terms have this label.
pub open spec fn label_count(specs: Seq<Seq<char>>, c: char) -> int
    decreases specs.len(),
{
    if specs.len() == 0 {
        0
    } else {
        label_count(specs.drop_last(), c) + if specs.last().contains(c) {
            1int
        } else {
            0
        }
    }
}

/// The letters from code `from` on that exactly one term has, in order.
pub open spec fn single_labels(specs: Seq<Seq<char>>, from: int) -> Seq<char>
    decreases 123 - from,
{
    if from > 122 {
        seq![]
    } else {
        let c = from as char;
        let rest = single_labels(specs, from + 1);
        if text::is_alphabetic(c) && label_count(specs, c) == 1 {
            seq![c] + rest
        } else {
            rest
        }
    }
}

/// The first label of an explicit output that no input has.
pub open spec fn first_unknown(out: Seq<char>, specs: Seq<Seq<char>>) -> Option<char>
    decreases out.len(),
{
    if out.len() == 0 {
        None
    } else if !has_label(specs, out[0]) {
        Some(out[0])
    } else {
        first_unknown(out.drop_first(), specs)
    }
}

/// The output labels: those behind the arrow, or else the labels that occur
/// exactly once, in alphabetical order.
pub open spec fn output_labels(
    specs: Seq<Seq<char>>,
    explicit: Option<Seq<char>>,
    equation: Seq<char>,
) -> Result<Seq<char>, ErrorV> {
    match explicit {
        None => Ok(single_labels(specs, 65)),
        Some(out) => if !out.no_duplicates() {
            Err(
                ErrorV::InvalidShape(
                    "Einsum equation "@ + text::debug_str(equation)
                        + " repeats a label in its output"@,
                ),
            )
        } else {
            match first_unknown(out, specs) {
                Some(c) => Err(
                    ErrorV::InvalidShape(
                        "Einsum equation "@ + text::debug_str(equation) + " output label "@
                            + text::debug_char(c) + " is not an input label"@,
                    ),
                ),
                None => Ok(out),
            }
        },
    }
}

/// The labels of an equation, or what is wrong with it.
pub open spec fn parsed_equation(equation: Seq<char>, n_inputs: int, name: Seq<char>) -> Result<
    ParsedV,
    ErrorV,
> {
    let s = compact(equation);
    let p = arrow(s);
    let terms = split_terms(s.take(p));
    let explicit = if p < s.len() {
        Some(s.skip(p + 2))
    } else {
        None
    };
    if text::has_part(s, "..."@) {
        Err(error::unsupported("Einsum(ellipsis)"@, name))
    } else {
        match terms_error(terms, equation, name) {
            Some(e) => Err(e),
            None => if terms.len() != n_inputs {
                Err(
                    ErrorV::InvalidShape(
                        "Einsum equation "@ + text::debug_str(equation) + " has "@ + text::decimal(
                            terms.len() as int,
                        ) + " terms but the node has "@ + text::decimal(n_inputs) + " inputs"@,
                    ),
                )
            } else {
                match output_labels(terms, explicit, equation) {
                    Err(e) => Err(e),
                    Ok(out) => Ok(ParsedV { input_specs: terms, output_spec: out }),
                }
            },
        }
    }
}

// ---------------------------------------------------------------------------
// Parsing
// ---------------------------------------------------------------------------

fn compact_chars(s: &str) -> (r: Vec<char>)
    ensures
        r@ == compact(s@),
{
    let v = text::chars_of(s);
    let ghost keep = |c: char| !text::is_space(c);
    let mut out: Vec<char> = Vec::new();
    let mut i: usize = 0;
    proof {
        reveal(Seq::filter);
    }
    assert(v@.take(0) =~= Seq::<char>::empty());
    while i < v.len()
        invariant
            i <= v@.len(),
            v@ == s@,
            keep == (|c: char| !text::is_space(c)),
            out@ == v@.take(i as int).filter(keep),
        decreases v@.len() - i,
    {
        proof {
            reveal(Seq::filter);
            assert(v@.take(i + 1).drop_last() =~= v@.take(i as int));
        }
        if !text::char_is_space(v[i]) {
            out.push(v[i]);
        }
        i = i + 1;
    }
    assert(v@.take(i as int) =~= v@);
    out
}

fn find_arrow(v: &Vec<char>) -> (r: usize)
    ensures
        r == arrow(v@),
        r <= v@.len(),
        r < v@.len() ==> r + 2 <= v@.len(),
{
    let mut i: usize = 0;
    let n: usize = v.len();
    assert(v@.skip(0) =~= v@);
    while i < n
        invariant
            i <= n,
            n == v@.len(),
            arrow(v@) == i + arrow(v@.skip(i as int)),
        decreases n - i,
    {
        assert(v@.skip(i as int).drop_first() =~= v@.skip(i + 1));
        if i + 1 < n {
            if v[i] == '-' && v[i + 1] == '>' {
                return i;
            }
        } else {
            return n;
        }
        i = i + 1;
    }
    n
}

fn sub_chars(v: &Vec<char>, from: usize, to: usize) -> (r: Vec<char>)
    requires
        from <= to <= v@.len(),
    ensures
        r@ == v@.subrange(from as int, to as int),
{
    let mut out: Vec<char> = Vec::new();
    let mut i: usize = from;
    while i < to
        invariant
            from <= i <= to <= v@.len(),
            out@ == v@.subrange(from as int, i as int),
        decreases to - i,
    {
        out.push(v[i]);
        i = i + 1;
        assert(v@.subrange(from as int, i as int) =~= v@.subrange(from as int, i - 1).push(
            v@[i - 1],
        ));
    }
    out
}

fn split_at_commas(v: &Vec<char>) -> (r: Vec<Vec<char>>)
    ensures
        specs_v(r@) == split_terms(v@),
{
    let mut out: Vec<Vec<char>> = Vec::new();
    let mut from: usize = 0;
    let n: usize = v.len();
    assert(v@.skip(0) =~= v@);
    assert(split_terms(v@) =~= specs_v(out@) + split_terms(v@.skip(0)));
    loop
        invariant
            from <= n,
            n == v@.len(),
            split_terms(v@) == specs_v(out@) + split_terms(v@.skip(from as int)),
        decreases n - from,
    {
        let ghost rest = v@.skip(from as int);
        let to: usize = text::find_char(v, from, ',');
        let term = sub_chars(v, from, to);
        let ghost before = specs_v(out@);
        out.push(term);
        assert(specs_v(out@) =~= before.push(term@));
        assert(rest.take(to - from) =~= term@);
        if to == n {
            assert(rest =~= term@);
            assert(before + seq![rest] =~= specs_v(out@));
            return out;
        }
        assert(rest.skip(to - from + 1) =~= v@.skip(to + 1));
        assert(before + (seq![term@] + split_terms(v@.skip(to + 1))) =~= specs_v(out@)
            + split_terms(v@.skip(to + 1)));
        from = to + 1;
    }
}

fn find_invalid(t: &Vec<char>) -> (r: Option<char>)
    ensures
        r == first_invalid(t@),
{
    let mut i: usize = 0;
    assert(t@.skip(0) =~= t@);
    while i < t.len()
        invariant
            i <= t@.len(),
            first_invalid(t@) == first_invalid(t@.skip(i as int)),
        decreases t@.len() - i,
    {
        assert(t@.skip(i as int).drop_first() =~= t@.skip(i + 1));
        if !text::char_is_alphabetic(t[i]) {
            return Some(t[i]);
        }
        i = i + 1;
    }
    None
}

/// Whether the list has the character.
fn has_char(v: &Vec<char>, c: char) -> (r: bool)
    ensures
        r == v@.contains(c),
{
    let mut i: usize = 0;
    while i < v.len()
        invariant
            i <= v@.len(),
            forall|k: int| 0 <= k < i ==> #[trigger] v@[k] != c,
        decreases v@.len() - i,
    {
        if v[i] == c {
            return true;
        }
        i = i + 1;
    }
    false
}

fn all_different(v: &Vec<char>) -> (r: bool)
    ensures
        r == v@.no_duplicates(),
{
    let mut i: usize = 0;
    while i < v.len()
        invariant
            i <= v@.len(),
            forall|a: int, b: int| 0 <= a < b < i ==> v@[a] != v@[b],
        decreases v@.len() - i,
    {
        let mut j: usize = 0;
        while j < i
            invariant
                j <= i < v@.len(),
                forall|a: int| 0 <= a < j ==> v@[a] != v@[i as int],
            decreases i - j,
        {
            if v[j] == v[i] {
                return false;
            }
            j = j + 1;
        }
        i = i + 1;
    }
    true
}

fn check_terms(terms: &Vec<Vec<char>>, equation: &str, name: &String) -> (r: Result<(), OnnxError>)
    ensures
        r matches Err(e) ==> terms_error(specs_v(terms@), equation@, name@) == Some(e@),
        r is Ok ==> terms_error(specs_v(terms@), equation@, name@) is None,
{
    let ghost all = specs_v(terms@);
    let mut i: usize = 0;
    assert(all.skip(0) =~= all);
    while i < terms.len()
        invariant
            i <= terms@.len(),
            all == specs_v(terms@),
            terms_error(all, equation@, name@) == terms_error(
                all.skip(i as int),
                equation@,
                name@,
            ),
        decreases terms@.len() - i,
    {
        assert(all.skip(i as int).drop_first() =~= all.skip(i + 1));
        match find_invalid(&terms[i]) {
            Some(c) => {
                let mut m = String::from_str("Einsum equation ");
                let d = text::format_debug_str(equation);
                m.append(d.as_str());
                m.append(" contains invalid label ");
                let d = text::format_debug_char(c);
                m.append(d.as_str());
                return Err(OnnxError::InvalidShape(m));
            },
            None => {},
        }
        if !all_different(&terms[i]) {
            return Err(
                OnnxError::unsupported_op(
                    String::from_str("Einsum(repeated label in one term)"),
                    name.clone(),
                ),
            );
        }
        i = i + 1;
    }
    Ok(())
}

fn count_label(terms: &Vec<Vec<char>>, c: char) -> (r: usize)
    ensures
        r == label_count(specs_v(terms@), c),
        r > 0 <==> has_label(specs_v(terms@), c),
{
    let ghost all = specs_v(terms@);
    let mut n: usize = 0;
    let mut i: usize = 0;
    assert(all.take(0) =~= Seq::<Seq<char>>::empty());
    while i < terms.len()
        invariant
            i <= terms@.len(),
            n <= i,
            all == specs_v(terms@),
            n == label_count(all.take(i as int), c),
            n > 0 <==> exists|k: int| 0 <= k < i && (#[trigger] all[k]).contains(c),
        decreases terms@.len() - i,
    {
        assert(all.take(i + 1).drop_last() =~= all.take(i as int));
        assert(all[i as int] == terms@[i as int]@);
        if has_char(&terms[i], c) {
            n = n + 1;
        }
        i = i + 1;
    }
    assert(all.take(i as int) =~= all);
    n
}

fn implicit_output(terms: &Vec<Vec<char>>) -> (r: Vec<char>)
    ensures
        r@ == single_labels(specs_v(terms@), 65),
{
    let ghost all = specs_v(terms@);
    let mut out: Vec<char> = Vec::new();
    let mut code: u8 = 65;
    assert(single_labels(all, 65) =~= out@ + single_labels(all, 65));
    while code <= 122
        invariant
            65 <= code <= 123,
            all == specs_v(terms@),
            single_labels(all, 65) == out@ + single_labels(all, code as int),
        decreases 123 - code,
    {
        let c: char = code as char;
        let ghost before = out@;
        if text::char_is_alphabetic(c) && count_label(terms, c) == 1 {
            out.push(c);
            assert(before + (seq![c] + single_labels(all, code + 1)) =~= out@ + single_labels(
                all,
                code + 1,
            ));
        }
        code = code + 1;
    }
    assert(out@ + single_labels(all, 123) =~= out@);
    out
}

fn find_unknown(out: &Vec<char>, terms: &Vec<Vec<char>>) -> (r: Option<char>)
    ensures
        r == first_unknown(out@, specs_v(terms@)),
{
    let mut i: usize = 0;
    assert(out@.skip(0) =~= out@);
    while i < out.len()
        invariant
            i <= out@.len(),
            first_unknown(out@, specs_v(terms@)) == first_unknown(
                out@.skip(i as int),
                specs_v(terms@),
            ),
        decreases out@.len() - i,
    {
        assert(out@.skip(i as int).drop_first() =~= out@.skip(i + 1));
        if count_label(terms, out[i]) == 0 {
            return Some(out[i]);
        }
        i = i + 1;
    }
    None
}

fn explicit_output(out: Vec<char>, terms: &Vec<Vec<char>>, equation: &str) -> (r: Result<
    Vec<char>,
    OnnxError,
>)
    ensures
        error::failed(r, |v: Vec<char>| v@) == output_labels(
            specs_v(terms@),
            Some(out@),
            equation@,
        ),
{
    if !all_different(&out) {
        let mut m = String::from_str("Einsum equation ");
        let d = text::format_debug_str(equation);
        m.append(d.as_str());
        m.append(" repeats a label in its output");
        return Err(OnnxError::InvalidShape(m));
    }
    match find_unknown(&out, terms) {
        Some(c) => {
            let mut m = String::from_str("Einsum equation ");
            let d = text::format_debug_str(equation);
            m.append(d.as_str());
            m.append(" output label ");
            let d = text::format_debug_char(c);
            m.append(d.as_str());
            m.append(" is not an input label");
            Err(OnnxError::InvalidShape(m))
        },
        None => Ok(out),
    }
}

/// Parse an einsum equation into per-input and output label lists.
///
/// Rejects ellipsis and repeated labels within a single term; the implicit
/// output (no `->`) is the alphabetically sorted set of labels that appear
/// exactly once across all inputs.
pub fn parse_einsum_equation(equation: &str, n_inputs: usize, node_name: &String) -> (r: Result<
    ParsedEinsum,
    OnnxError,
>)
    ensures
        error::failed(r, |p: ParsedEinsum| p@) == parsed_equation(
            equation@,
            n_inputs as int,
            node_name@,
        ),
{
    let v = compact_chars(equation);
    let s = text::string_of(&v, 0, v.len());
    assert(s@ =~= v@);
    if text::contains_part(s.as_str(), "...") {
        return Err(
            OnnxError::unsupported_op(String::from_str("Einsum(ellipsis)"), node_name.clone()),
        );
    }
    let p: usize = find_arrow(&v);
    let lhs = sub_chars(&v, 0, p);
    assert(lhs@ =~= v@.take(p as int));
    let terms = split_at_commas(&lhs);
    match check_terms(&terms, equation, node_name) {
        Ok(_) => {},
        Err(e) => return Err(e),
    }
    if terms.len() != n_inputs {
        let mut m = String::from_str("Einsum equation ");
        let d = text::format_debug_str(equation);
        m.append(d.as_str());
        m.append(" has ");
        let d = text::decimal_usize(terms.len());
        m.append(d.as_str());
        m.append(" terms but the node has ");
        let d = text::decimal_usize(n_inputs);
        m.append(d.as_str());
        m.append(" inputs");
        return Err(OnnxError::InvalidShape(m));
    }
    let output_spec: Vec<char> = if p < v.len() {
        let rhs = sub_chars(&v, p + 2, v.len());
        assert(rhs@ =~= v@.skip(p + 2));
        match explicit_output(rhs, &terms, equation) {
            Ok(o) => o,
            Err(e) => return Err(e),
        }
    } else {
        implicit_output(&terms)
    };
    Ok(ParsedEinsum { input_specs: terms, output_spec })
}

// ---------------------------------------------------------------------------
// Shape inference
// ---------------------------------------------------------------------------

pub open spec fn shapes_v(v: Seq<Vec<i64>>) -> Seq<Seq<i64>> {
    Seq::new(v.len(), |i: int| v[i]@)
}

/// Every input has as many axes as labels.
pub open spec fn ranks_match(specs: Seq<Seq<char>>, shapes: Seq<Seq<i64>>) -> bool {
    forall|i: int| 0 <= i < specs.len() ==> (#[trigger] specs[i]).len() == shapes[i].len()
}

/// The size of a label: that of the first axis that has it.
pub open spec fn label_size(specs: Seq<Seq<char>>, shapes: Seq<Seq<i64>>, c: char) -> i64
    decreases specs.len(),
{
    if specs.len() == 0 {
        0
    } else if specs[0].contains(c) {
        shapes[0][text::first_pos(specs[0], c)]
    } else {
        label_size(specs.drop_first(), shapes.drop_first(), c)
    }
}

/// Every axis has the size of its label, so axes with the same label have the
/// same size.
pub open spec fn sizes_agree(specs: Seq<Seq<char>>, shapes: Seq<Seq<i64>>) -> bool {
    forall|i: int, a: int|
        0 <= i < specs.len() && 0 <= a < specs[i].len() ==> #[trigger] shapes[i][a] == label_size(
            specs,
            shapes,
            specs[i][a],
        )
}

/// The output shape of an equation, where it is valid and the shapes fit it.
pub open spec fn equation_shape(equation: Seq<char>, shapes: Seq<Seq<i64>>) -> Option<Seq<i64>> {
    match parsed_equation(equation, shapes.len() as int, "shape-inference"@) {
        Err(_) => None,
        Ok(p) => if ranks_match(p.input_specs, shapes) && sizes_agree(p.input_specs, shapes) {
            Some(
                Seq::new(
                    p.output_spec.len(),
                    |i: int| label_size(p.input_specs, shapes, p.output_spec[i]),
                ),
            )
        } else {
            None
        },
    }
}

pub proof fn lemma_first_pos_found(s: Seq<char>, c: char)
    requires
        s.contains(c),
    ensures
        0 <= text::first_pos(s, c) < s.len(),
        s[text::first_pos(s, c)] == c,
    decreases s.len(),
{
    if s[0] != c {
        let k = choose|k: int| 0 <= k < s.len() && s[k] == c;
        assert(s.drop_first()[k - 1] == c);
        lemma_first_pos_found(s.drop_first(), c);
    }
}

/// A label of an explicit or implicit output is a label of an input.
pub proof fn lemma_output_known(equation: Seq<char>, n: int, name: Seq<char>, k: int)
    requires
        parsed_equation(equation, n, name) is Ok,
        0 <= k < parsed_equation(equation, n, name)->Ok_0.output_spec.len(),
    ensures
        ({
            let p = parsed_equation(equation, n, name)->Ok_0;
            has_label(p.input_specs, p.output_spec[k])
        }),
{
    let p = parsed_equation(equation, n, name)->Ok_0;
    let s = compact(equation);
    if arrow(s) < s.len() {
        lemma_known(p.output_spec, p.input_specs, k);
    } else {
        lemma_single_labels(p.input_specs, 65, k);
    }
}

proof fn lemma_known(out: Seq<char>, specs: Seq<Seq<char>>, k: int)
    requires
        first_unknown(out, specs) is None,
        0 <= k < out.len(),
    ensures
        has_label(specs, out[k]),
    decreases out.len(),
{
    if k > 0 {
        lemma_known(out.drop_first(), specs, k - 1);
    }
}

proof fn lemma_count_positive(specs: Seq<Seq<char>>, c: char)
    ensures
        label_count(specs, c) >= 0,
        label_count(specs, c) > 0 <==> has_label(specs, c),
    decreases specs.len(),
{
    if specs.len() > 0 {
        let front = specs.drop_last();
        lemma_count_positive(front, c);
        if has_label(specs, c) {
            let i = choose|i: int| 0 <= i < specs.len() && (#[trigger] specs[i]).contains(c);
            if i < front.len() {
                assert(front[i].contains(c));
            }
        }
        if has_label(front, c) {
            let i = choose|i: int| 0 <= i < front.len() && (#[trigger] front[i]).contains(c);
            assert(specs[i].contains(c));
        }
        if specs.last().contains(c) {
            assert(specs[specs.len() - 1].contains(c));
        }
    }
}

/// The implicit output lists, in strictly increasing order, exactly the
/// letters that one term has and no other.
proof fn lemma_single_labels(specs: Seq<Seq<char>>, from: int, k: int)
    requires
        0 <= from,
        0 <= k < single_labels(specs, from).len(),
    ensures
        ({
            let c = single_labels(specs, from)[k];
            &&& from <= c as int <= 122
            &&& text::is_alphabetic(c)
            &&& label_count(specs, c) == 1
            &&& has_label(specs, c)
            &&& forall|j: int|
                0 <= j < k ==> (#[trigger] single_labels(specs, from)[j] as int) < c as int
        }),
    decreases 123 - from,
{
    let all = single_labels(specs, from);
    let rest = single_labels(specs, from + 1);
    let first = from as char;
    lemma_count_positive(specs, first);
    if text::is_alphabetic(first) && label_count(specs, first) == 1 {
        if k > 0 {
            lemma_single_labels(specs, from + 1, k - 1);
            assert(all[k] == rest[k - 1]);
            assert forall|j: int| 0 <= j < k implies (#[trigger] all[j] as int) < all[k] as int by {
                if j > 0 {
                    assert(all[j] == rest[j - 1]);
                }
            }
        }
    } else {
        lemma_single_labels(specs, from + 1, k);
    }
}

fn find_label(labels: &Vec<char>, c: char) -> (r: usize)
    ensures
        r == text::first_pos(labels@, c),
        r <= labels@.len(),
        r < labels@.len() ==> labels@[r as int] == c,
        r == labels@.len() ==> !labels@.contains(c),
{
    let r: usize = text::find_char(labels, 0, c);
    assert(labels@.skip(0) =~= labels@);
    r
}

/// The size of a label, zero where no input has it.
fn find_size(specs: &Vec<Vec<char>>, shapes: &Vec<Vec<i64>>, c: char) -> (r: i64)
    requires
        specs@.len() == shapes@.len(),
        ranks_match(specs_v(specs@), shapes_v(shapes@)),
    ensures
        r == label_size(specs_v(specs@), shapes_v(shapes@), c),
{
    let ghost sp = specs_v(specs@);
    let ghost sh = shapes_v(shapes@);
    let mut i: usize = 0;
    assert(sp.skip(0) =~= sp);
    assert(sh.skip(0) =~= sh);
    while i < specs.len()
        invariant
            i <= specs@.len(),
            specs@.len() == shapes@.len(),
            sp == specs_v(specs@),
            sh == shapes_v(shapes@),
            ranks_match(sp, sh),
            label_size(sp, sh, c) == label_size(sp.skip(i as int), sh.skip(i as int), c),
        decreases specs@.len() - i,
    {
        assert(sp.skip(i as int).drop_first() =~= sp.skip(i + 1));
        assert(sh.skip(i as int).drop_first() =~= sh.skip(i + 1));
        assert(sp[i as int] == specs@[i as int]@);
        assert(sh[i as int] == shapes@[i as int]@);
        let p: usize = find_label(&specs[i], c);
        if p < specs[i].len() {
            assert(sp[i as int].contains(c));
            return shapes[i][p];
        }
        i = i + 1;
    }
    0
}

fn shapes_fit(specs: &Vec<Vec<char>>, shapes: &Vec<Vec<i64>>) -> (r: bool)
    requires
        specs@.len() == shapes@.len(),
    ensures
        r == (ranks_match(specs_v(specs@), shapes_v(shapes@)) && sizes_agree(
            specs_v(specs@),
            shapes_v(shapes@),
        )),
{
    let ghost sp = specs_v(specs@);
    let ghost sh = shapes_v(shapes@);
    let mut i: usize = 0;
    while i < specs.len()
        invariant
            i <= specs@.len(),
            specs@.len() == shapes@.len(),
            sp == specs_v(specs@),
            sh == shapes_v(shapes@),
            forall|k: int| 0 <= k < i ==> (#[trigger] sp[k]).len() == sh[k].len(),
        decreases specs@.len() - i,
    {
        assert(sp[i as int] == specs@[i as int]@);
        assert(sh[i as int] == shapes@[i as int]@);
        if specs[i].len() != shapes[i].len() {
            return false;
        }
        i = i + 1;
    }
    assert(ranks_match(sp, sh));
    let mut i: usize = 0;
    while i < specs.len()
        invariant
            i <= specs@.len(),
            specs@.len() == shapes@.len(),
            sp == specs_v(specs@),
            sh == shapes_v(shapes@),
            ranks_match(sp, sh),
            forall|k: int, b: int|
                0 <= k < i && 0 <= b < sp[k].len() ==> #[trigger] sh[k][b] == label_size(
                    sp,
                    sh,
                    sp[k][b],
                ),
        decreases specs@.len() - i,
    {
        assert(sp[i as int] == specs@[i as int]@);
        assert(sh[i as int] == shapes@[i as int]@);
        let mut a: usize = 0;
        while a < specs[i].len()
            invariant
                i < specs@.len(),
                a <= sp[i as int].len(),
                specs@.len() == shapes@.len(),
                sp == specs_v(specs@),
                sh == shapes_v(shapes@),
                sp[i as int] == specs@[i as int]@,
                sh[i as int] == shapes@[i as int]@,
                ranks_match(sp, sh),
                forall|b: int|
                    0 <= b < a ==> #[trigger] sh[i as int][b] == label_size(
                        sp,
                        sh,
                        sp[i as int][b],
                    ),
            decreases sp[i as int].len() - a,
        {
            let size: i64 = find_size(specs, shapes, specs[i][a]);
            if shapes[i][a] != size {
                assert(sh[i as int][a as int] != label_size(sp, sh, sp[i as int][a as int]));
                return false;
            }
            a = a + 1;
        }
        i = i + 1;
    }
    true
}

/// Static output shape for an einsum node, for shape inference.
pub fn einsum_output_shape(equation: &str, input_shapes: &Vec<Vec<i64>>) -> (r: Option<Vec<i64>>)
    ensures
        r matches Some(s) ==> equation_shape(equation@, shapes_v(input_shapes@)) == Some(s@),
        r is None ==> equation_shape(equation@, shapes_v(input_shapes@)) is None,
{
    let name = String::from_str("shape-inference");
    let parsed = match parse_einsum_equation(equation, input_shapes.len(), &name) {
        Ok(p) => p,
        Err(_) => return None,
    };
    if !shapes_fit(&parsed.input_specs, input_shapes) {
        return None;
    }
    let mut out: Vec<i64> = Vec::new();
    let mut k: usize = 0;
    while k < parsed.output_spec.len()
        invariant
            k <= parsed.output_spec@.len(),
            parsed.input_specs@.len() == input_shapes@.len(),
            ranks_match(specs_v(parsed.input_specs@), shapes_v(input_shapes@)),
            out@.len() == k,
            forall|j: int|
                0 <= j < k ==> #[trigger] out@[j] == label_size(
                    specs_v(parsed.input_specs@),
                    shapes_v(input_shapes@),
                    parsed.output_spec@[j],
                ),
        decreases parsed.output_spec@.len() - k,
    {
        out.push(find_size(&parsed.input_specs, input_shapes, parsed.output_spec[k]));
        k = k + 1;
    }
    assert(out@ =~= equation_shape(equation@, shapes_v(input_shapes@))->0);
    Some(out)
}

// ---------------------------------------------------------------------------
// Terms
// ---------------------------------------------------------------------------

/// One operand together with its current label order and dimensions.
pub struct TermV {
    pub operand: OperandV,
    pub labels: Seq<char>,
    pub dims: Seq<i64>,
}

struct Term {
    operand: Operand,
    labels: Vec<char>,
    dims: Vec<i64>,
}

impl View for Term {
    type V = TermV;

    closed spec fn view(&self) -> TermV {
        TermV { operand: self.operand@, labels: self.labels@, dims: self.dims@ }
    }
}

spec fn terms_v(v: Seq<Term>) -> Seq<TermV> {
    Seq::new(v.len(), |i: int| v[i]@)
}

/// Steps, and the terms or an error.
pub struct TermsOutcome {
    pub ops: Seq<OpV>,
    pub result: Result<Seq<TermV>, ErrorV>,
}

/// What is wrong with the shape of an input.
pub open spec fn shape_error(
    index: int,
    name: Seq<char>,
    spec_len: int,
    shape: Option<Seq<i64>>,
    equation: Seq<char>,
) -> Option<ErrorV> {
    match shape {
        None => Some(
            ErrorV::InvalidShape("Einsum requires a known static shape for '"@ + name + "'"@),
        ),
        Some(s) => if s.len() != spec_len {
            Some(
                ErrorV::InvalidShape(
                    "Einsum term "@ + text::decimal(index) + " of "@ + text::debug_str(equation)
                        + " has "@ + text::decimal(spec_len) + " labels but '"@ + name
                        + "' has rank "@ + text::decimal(s.len() as int) + " (shape "@
                        + text::list_text(text::ints(s)) + ")"@,
                ),
            )
        } else if exists|i: int| 0 <= i < s.len() && #[trigger] s[i] <= 0 {
            Some(
                ErrorV::InvalidShape(
                    "Einsum requires static dimensions for '"@ + name + "', got "@
                        + text::list_text(text::ints(s)),
                ),
            )
        } else {
            None
        },
    }
}

/// The terms of the inputs from `from` on, behind those already found.
pub open spec fn load_terms(
    ops: Seq<OpV>,
    found: Seq<TermV>,
    node: NodeV,
    ctx: ContextV,
    specs: Seq<Seq<char>>,
    equation: Seq<char>,
    from: int,
) -> TermsOutcome
    decreases node.input.len() - from,
{
    if from >= node.input.len() {
        TermsOutcome { ops, result: Ok(found) }
    } else {
        let name = node.input[from];
        match shape_error(from, name, specs[from].len() as int, ctx.shape(name), equation) {
            Some(e) => TermsOutcome { ops, result: Err(e) },
            None => {
                let o = ops::resolved(ops, name);
                let t = TermV {
                    operand: builder::last_operand(o),
                    labels: specs[from],
                    dims: ctx.shape(name)->0,
                };
                load_terms(o, found.push(t), node, ctx, specs, equation, from + 1)
            },
        }
    }
}

fn check_shape<'a>(
    index: usize,
    name: &String,
    spec_len: usize,
    ctx: &'a ConversionContext,
    equation: &String,
) -> (r: Result<&'a Vec<i64>, OnnxError>)
    ensures
        r matches Err(e) ==> shape_error(
            index as int,
            name@,
            spec_len as int,
            ctx@.shape(name@),
            equation@,
        ) == Some(e@),
        r matches Ok(s) ==> shape_error(
            index as int,
            name@,
            spec_len as int,
            ctx@.shape(name@),
            equation@,
        ) is None && ctx@.shape(name@) == Some(s@),
{
    let shape = match ctx.resolve_shape(name) {
        Some(s) => s,
        None => {
            let mut m = String::from_str("Einsum requires a known static shape for '");
            m.append(name.as_str());
            m.append("'");
            return Err(OnnxError::InvalidShape(m));
        },
    };
    if shape.len() != spec_len {
        let mut m = String::from_str("Einsum term ");
        let d = text::decimal_usize(index);
        m.append(d.as_str());
        m.append(" of ");
        let d = text::format_debug_str(equation.as_str());
        m.append(d.as_str());
        m.append(" has ");
        let d = text::decimal_usize(spec_len);
        m.append(d.as_str());
        m.append(" labels but '");
        m.append(name.as_str());
        m.append("' has rank ");
        let d = text::decimal_usize(shape.len());
        m.append(d.as_str());
        m.append(" (shape ");
        let d = text::list_i64(shape);
        m.append(d.as_str());
        m.append(")");
        return Err(OnnxError::InvalidShape(m));
    }
    let mut i: usize = 0;
    while i < shape.len()
        invariant
            i <= shape@.len(),
            shape@.len() == spec_len,
            ctx@.shape(name@) == Some(shape@),
            forall|k: int| 0 <= k < i ==> #[trigger] shape@[k] > 0,
        decreases shape@.len() - i,
    {
        if shape[i] <= 0 {
            let mut m = String::from_str("Einsum requires static dimensions for '");
            m.append(name.as_str());
            m.append("', got ");
            let d = text::list_i64(shape);
            m.append(d.as_str());
            return Err(OnnxError::InvalidShape(m));
        }
        i = i + 1;
    }
    Ok(shape)
}

/// The labels of term `index` that are not summed away at once.
pub open spec fn keeps(specs: Seq<Seq<char>>, output: Seq<char>, index: int, c: char) -> bool {
    output.contains(c) || exists|j: int|
        0 <= j < specs.len() && j != index && (#[trigger] specs[j]).contains(c)
}

pub open spec fn keep_fn(specs: Seq<Seq<char>>, output: Seq<char>, index: int) -> spec_fn(
    char,
) -> bool {
    |c: char| keeps(specs, output, index, c)
}

/// The axes whose labels are dropped.
pub open spec fn dropped_axes(labels: Seq<char>, keep: spec_fn(char) -> bool) -> Seq<u32>
    decreases labels.len(),
{
    if labels.len() == 0 {
        seq![]
    } else {
        let front = dropped_axes(labels.drop_last(), keep);
        if keep(labels.last()) {
            front
        } else {
            front.push((labels.len() - 1) as u32)
        }
    }
}

/// The sizes of the axes whose labels are kept.
pub open spec fn kept_dims(labels: Seq<char>, dims: Seq<i64>, keep: spec_fn(char) -> bool) -> Seq<
    i64,
>
    decreases labels.len(),
{
    if labels.len() == 0 {
        seq![]
    } else {
        let front = kept_dims(labels.drop_last(), dims, keep);
        if keep(labels.last()) {
            front.push(dims[labels.len() - 1])
        } else {
            front
        }
    }
}

/// One term with the labels that nothing else uses summed away.
pub struct SummedV {
    pub ops: Seq<OpV>,
    pub term: TermV,
}

pub open spec fn sum_term(
    ops: Seq<OpV>,
    t: TermV,
    specs: Seq<Seq<char>>,
    output: Seq<char>,
    index: int,
    label: Seq<char>,
) -> SummedV {
    let keep = keep_fn(specs, output, index);
    let axes = dropped_axes(t.labels, keep);
    if axes.len() == 0 {
        SummedV { ops, term: t }
    } else {
        let o = ops.push(
            OpV::Reduce {
                op: ReduceOp::Sum,
                input: t.operand,
                axes,
                keep_dimensions: false,
                label: label + "__sum_in"@ + text::decimal(index),
            },
        );
        SummedV {
            ops: o,
            term: TermV {
                operand: builder::last_operand(o),
                labels: t.labels.filter(keep),
                dims: kept_dims(t.labels, t.dims, keep),
            },
        }
    }
}

fn keeps_label(specs: &Vec<Vec<char>>, output: &Vec<char>, index: usize, c: char) -> (r: bool)
    ensures
        r == keeps(specs_v(specs@), output@, index as int, c),
{
    if has_char(output, c) {
        return true;
    }
    let mut j: usize = 0;
    while j < specs.len()
        invariant
            j <= specs@.len(),
            !output@.contains(c),
            forall|k: int|
                0 <= k < j && k != index ==> !(#[trigger] specs_v(specs@)[k]).contains(c),
        decreases specs@.len() - j,
    {
        assert(specs_v(specs@)[j as int] == specs@[j as int]@);
        if j != index && has_char(&specs[j], c) {
            return true;
        }
        j = j + 1;
    }
    false
}

/// The axes of a term that are summed away, and the labels and sizes that stay.
struct Kept {
    axes: Vec<u32>,
    labels: Vec<char>,
    dims: Vec<i64>,
}

fn keep_used(
    labels: &Vec<char>,
    dims: &Vec<i64>,
    specs: &Vec<Vec<char>>,
    output: &Vec<char>,
    index: usize,
) -> (r: Kept)
    requires
        labels@.len() == dims@.len(),
    ensures
        r.axes@ == dropped_axes(labels@, keep_fn(specs_v(specs@), output@, index as int)),
        r.labels@ == labels@.filter(keep_fn(specs_v(specs@), output@, index as int)),
        r.dims@ == kept_dims(labels@, dims@, keep_fn(specs_v(specs@), output@, index as int)),
{
    let ghost keep = keep_fn(specs_v(specs@), output@, index as int);
    let mut axes: Vec<u32> = Vec::new();
    let mut kept_labels: Vec<char> = Vec::new();
    let mut sizes: Vec<i64> = Vec::new();
    let mut i: usize = 0;
    proof {
        reveal(Seq::filter);
    }
    assert(labels@.take(0) =~= Seq::<char>::empty());
    while i < labels.len()
        invariant
            i <= labels@.len(),
            labels@.len() == dims@.len(),
            keep == keep_fn(specs_v(specs@), output@, index as int),
            axes@ == dropped_axes(labels@.take(i as int), keep),
            kept_labels@ == labels@.take(i as int).filter(keep),
            sizes@ == kept_dims(labels@.take(i as int), dims@, keep),
        decreases labels@.len() - i,
    {
        proof {
            reveal(Seq::filter);
            assert(labels@.take(i + 1).drop_last() =~= labels@.take(i as int));
        }
        let c: char = labels[i];
        if keeps_label(specs, output, index, c) {
            kept_labels.push(c);
            sizes.push(dims[i]);
        } else {
            axes.push(i as u32);
        }
        i = i + 1;
    }
    assert(labels@.take(i as int) =~= labels@);
    Kept { axes, labels: kept_labels, dims: sizes }
}

fn sum_unused(
    b: &mut OnnxBuilder,
    t: Term,
    specs: &Vec<Vec<char>>,
    output: &Vec<char>,
    index: usize,
    label: &String,
) -> (r: Term)
    requires
        t@.labels.len() == t@.dims.len(),
    ensures
        ({
            let s = sum_term(
                old(b)@,
                t@,
                specs_v(specs@),
                output@,
                index as int,
                label@,
            );
            &&& final(b)@ == s.ops
            &&& r@ == s.term
        }),
{
    let kept = keep_used(&t.labels, &t.dims, specs, output, index);
    if kept.axes.len() == 0 {
        return t;
    }
    let mut m = label_with(label, "__sum_in");
    let d = text::decimal_usize(index);
    m.append(d.as_str());
    let operand = b.reduce(ReduceOp::Sum, t.operand, kept.axes, false, m);
    Term { operand, labels: kept.labels, dims: kept.dims }
}

// ---------------------------------------------------------------------------
// Transposition and contraction
// ---------------------------------------------------------------------------

/// Where each label of `target` stands in `labels`.
pub open spec fn permutation(labels: Seq<char>, target: Seq<char>) -> Seq<u32> {
    Seq::new(target.len(), |i: int| text::first_pos(labels, target[i]) as u32)
}

pub open spec fn is_identity(p: Seq<u32>) -> bool {
    forall|i: int| 0 <= i < p.len() ==> #[trigger] p[i] == i as u32
}

/// The operand with its labels in `target` order; nothing is done where they
/// already are.
pub open spec fn reordered(ops: Seq<OpV>, t: TermV, target: Seq<char>, label: Seq<char>) -> Part {
    let p = permutation(t.labels, target);
    if is_identity(p) {
        Part { ops, operand: t.operand }
    } else {
        let o = ops.push(OpV::Transpose { input: t.operand, permutation: p, label });
        Part { ops: o, operand: builder::last_operand(o) }
    }
}

fn transpose_to(b: &mut OnnxBuilder, t: &Term, target: &Vec<char>, label: String) -> (r: Operand)
    ensures
        final(b)@ == reordered(old(b)@, t@, target@, label@).ops,
        r@ == reordered(old(b)@, t@, target@, label@).operand,
{
    let mut p: Vec<u32> = Vec::new();
    let mut identity: bool = true;
    let mut i: usize = 0;
    while i < target.len()
        invariant
            i <= target@.len(),
            p@.len() == i,
            forall|k: int| 0 <= k < i ==> #[trigger] p@[k] == permutation(t.labels@, target@)[k],
            identity == (forall|k: int| 0 <= k < i ==> #[trigger] p@[k] == k as u32),
        decreases target@.len() - i,
    {
        let at: usize = find_label(&t.labels, target[i]);
        if at as u32 != i as u32 {
            identity = false;
        }
        let ghost before = p@;
        p.push(at as u32);
        assert(forall|k: int| 0 <= k < i ==> p@[k] == #[trigger] before[k]);
        assert(p@[i as int] == at as u32);
        i = i + 1;
    }
    assert(p@ =~= permutation(t.labels@, target@));
    if identity {
        return t.operand;
    }
    b.transpose(t.operand, p, label)
}

/// The labels of `v` that are in `a` or not, and in `b` or not, as asked.
pub open spec fn picked(
    v: Seq<char>,
    a: Seq<char>,
    in_a: bool,
    b: Seq<char>,
    in_b: bool,
) -> Seq<char> {
    v.filter(|c: char| a.contains(c) == in_a && b.contains(c) == in_b)
}

fn pick(v: &Vec<char>, a: &Vec<char>, in_a: bool, b: &Vec<char>, in_b: bool) -> (r: Vec<char>)
    ensures
        r@ == picked(v@, a@, in_a, b@, in_b),
{
    let ghost keep = |c: char| a@.contains(c) == in_a && b@.contains(c) == in_b;
    let mut out: Vec<char> = Vec::new();
    let mut i: usize = 0;
    proof {
        reveal(Seq::filter);
    }
    assert(v@.take(0) =~= Seq::<char>::empty());
    while i < v.len()
        invariant
            i <= v@.len(),
            keep == (|c: char| a@.contains(c) == in_a && b@.contains(c) == in_b),
            out@ == v@.take(i as int).filter(keep),
        decreases v@.len() - i,
    {
        proof {
            reveal(Seq::filter);
            assert(v@.take(i + 1).drop_last() =~= v@.take(i as int));
        }
        if has_char(a, v[i]) == in_a && has_char(b, v[i]) == in_b {
            out.push(v[i]);
        }
        i = i + 1;
    }
    assert(v@.take(i as int) =~= v@);
    out
}

/// The sizes of these labels in a term.
pub open spec fn sizes_of(labels: Seq<char>, dims: Seq<i64>, wanted: Seq<char>) -> Seq<i64> {
    Seq::new(wanted.len(), |i: int| dims[text::first_pos(labels, wanted[i])])
}

/// Every wanted label is a label of the term.
pub open spec fn all_in(wanted: Seq<char>, labels: Seq<char>) -> bool {
    forall|i: int| 0 <= i < wanted.len() ==> labels.contains(#[trigger] wanted[i])
}

fn dims_of(labels: &Vec<char>, dims: &Vec<i64>, wanted: &Vec<char>) -> (r: Vec<i64>)
    requires
        labels@.len() == dims@.len(),
        all_in(wanted@, labels@),
    ensures
        r@ == sizes_of(labels@, dims@, wanted@),
{
    let mut out: Vec<i64> = Vec::new();
    let mut i: usize = 0;
    while i < wanted.len()
        invariant
            i <= wanted@.len(),
            labels@.len() == dims@.len(),
            all_in(wanted@, labels@),
            out@.len() == i,
            forall|k: int|
                0 <= k < i ==> #[trigger] out@[k] == sizes_of(labels@, dims@, wanted@)[k],
        decreases wanted@.len() - i,
    {
        let at: usize = find_label(labels, wanted[i]);
        assert(labels@.contains(wanted@[i as int]));
        out.push(dims[at]);
        i = i + 1;
    }
    assert(out@ =~= sizes_of(labels@, dims@, wanted@));
    out
}

/// The groups of labels of two terms: shared and kept, in output order; shared
/// and summed; only in the first; only in the second.
pub struct GroupsV {
    pub batch: Seq<char>,
    pub contracted: Seq<char>,
    pub free_a: Seq<char>,
    pub free_b: Seq<char>,
}

pub open spec fn groups(a: Seq<char>, b: Seq<char>, output: Seq<char>) -> GroupsV {
    GroupsV {
        batch: picked(output, a, true, b, true),
        contracted: picked(a, b, true, output, false),
        free_a: picked(a, b, false, seq![], false),
        free_b: picked(b, a, false, seq![], false),
    }
}

/// Two terms contracted: `[NB, FA, C] @ [NB, C, FB]`, in output order.
pub open spec fn contracted_pair(
    ops: Seq<OpV>,
    a: TermV,
    b: TermV,
    output: Seq<char>,
    label: Seq<char>,
) -> Part {
    let g = groups(a.labels, b.labels, output);
    let batch_dims = sizes_of(a.labels, a.dims, g.batch);
    let nb = arith::product(batch_dims) as i64;
    let fa = arith::product(sizes_of(a.labels, a.dims, g.free_a)) as i64;
    let fb = arith::product(sizes_of(b.labels, b.dims, g.free_b)) as i64;
    let c = arith::product(sizes_of(a.labels, a.dims, g.contracted)) as i64;
    let a_t = reordered(ops, a, g.batch + g.free_a + g.contracted, label + "__a_perm"@);
    let o1 = a_t.ops.push(
        OpV::Reshape { input: a_t.operand, shape: seq![nb, fa, c], label: label + "__a_3d"@ },
    );
    let b_t = reordered(o1, b, g.batch + g.contracted + g.free_b, label + "__b_perm"@);
    let o2 = b_t.ops.push(
        OpV::Reshape { input: b_t.operand, shape: seq![nb, c, fb], label: label + "__b_3d"@ },
    );
    let o3 = o2.push(
        ops::binary_op(
            BinaryOp::Matmul,
            builder::last_operand(o1),
            builder::last_operand(o2),
            label + "__matmul"@,
        ),
    );
    let unpacked = batch_dims + sizes_of(a.labels, a.dims, g.free_a) + sizes_of(
        b.labels,
        b.dims,
        g.free_b,
    );
    let o4 = o3.push(
        OpV::Reshape {
            input: builder::last_operand(o3),
            shape: unpacked,
            label: label + "__unpacked"@,
        },
    );
    reordered(
        o4,
        TermV {
            operand: builder::last_operand(o4),
            labels: g.batch + g.free_a + g.free_b,
            dims: unpacked,
        },
        output,
        label + "__out_perm"@,
    )
}

/// The products of the sizes of each group are 64-bit integers.
pub open spec fn groups_in_range(
    a_labels: Seq<char>,
    a_dims: Seq<i64>,
    b_labels: Seq<char>,
    b_dims: Seq<i64>,
    output: Seq<char>,
) -> bool {
    let g = groups(a_labels, b_labels, output);
    &&& arith::product_fits(sizes_of(a_labels, a_dims, g.batch))
    &&& arith::product_fits(sizes_of(a_labels, a_dims, g.free_a))
    &&& arith::product_fits(sizes_of(b_labels, b_dims, g.free_b))
    &&& arith::product_fits(sizes_of(a_labels, a_dims, g.contracted))
}

pub proof fn lemma_picked(
    v: Seq<char>,
    a: Seq<char>,
    in_a: bool,
    b: Seq<char>,
    in_b: bool,
)
    ensures
        forall|i: int|
            0 <= i < picked(v, a, in_a, b, in_b).len() ==> {
                let c = #[trigger] picked(v, a, in_a, b, in_b)[i];
                v.contains(c) && a.contains(c) == in_a && b.contains(c) == in_b
            },
        forall|c: char|
            v.contains(c) && a.contains(c) == in_a && b.contains(c) == in_b
                ==> #[trigger] picked(v, a, in_a, b, in_b).contains(c),
    decreases v.len(),
{
    reveal(Seq::filter);
    if v.len() > 0 {
        let front = v.drop_last();
        lemma_picked(front, a, in_a, b, in_b);
        let p = picked(v, a, in_a, b, in_b);
        let q = picked(front, a, in_a, b, in_b);
        assert(forall|c: char| front.contains(c) ==> v.contains(c)) by {
            assert forall|c: char| front.contains(c) implies v.contains(c) by {
                let k = choose|k: int| 0 <= k < front.len() && front[k] == c;
                assert(v[k] == c);
            }
        }
        assert(v.contains(v.last()));
        assert forall|i: int| 0 <= i < p.len() implies {
            let c = #[trigger] p[i];
            v.contains(c) && a.contains(c) == in_a && b.contains(c) == in_b
        } by {
            if i < q.len() {
                assert(p[i] == q[i]);
            }
        }
        assert forall|c: char|
            v.contains(c) && a.contains(c) == in_a && b.contains(c)
                == in_b implies #[trigger] p.contains(c) by {
            if front.contains(c) {
                assert(q.contains(c));
                let k = choose|k: int| 0 <= k < q.len() && q[k] == c;
                assert(p[k] == c);
            } else {
                let k = choose|k: int| 0 <= k < v.len() && v[k] == c;
                if k < front.len() {
                    assert(front[k] == c);
                }
                assert(p[p.len() - 1] == c);
            }
        }
    }
}

struct Groups {
    batch: Vec<char>,
    contracted: Vec<char>,
    free_a: Vec<char>,
    free_b: Vec<char>,
}

impl View for Groups {
    type V = GroupsV;

    closed spec fn view(&self) -> GroupsV {
        GroupsV {
            batch: self.batch@,
            contracted: self.contracted@,
            free_a: self.free_a@,
            free_b: self.free_b@,
        }
    }
}

fn split_groups(a: &Vec<char>, b: &Vec<char>, output: &Vec<char>) -> (r: Groups)
    ensures
        r@ == groups(a@, b@, output@),
{
    let none: Vec<char> = Vec::new();
    assert(none@ =~= Seq::<char>::empty());
    Groups {
        batch: pick(output, a, true, b, true),
        contracted: pick(a, b, true, output, false),
        free_a: pick(a, b, false, &none, false),
        free_b: pick(b, a, false, &none, false),
    }
}

/// The sizes of the labels of each group.
struct GroupSizes {
    batch: Vec<i64>,
    contracted: Vec<i64>,
    free_a: Vec<i64>,
    free_b: Vec<i64>,
}

fn group_sizes(
    a_labels: &Vec<char>,
    a_dims: &Vec<i64>,
    b_labels: &Vec<char>,
    b_dims: &Vec<i64>,
    output: &Vec<char>,
    g: &Groups,
) -> (r: GroupSizes)
    requires
        a_labels@.len() == a_dims@.len(),
        b_labels@.len() == b_dims@.len(),
        g@ == groups(a_labels@, b_labels@, output@),
    ensures
        r.batch@ == sizes_of(a_labels@, a_dims@, g@.batch),
        r.contracted@ == sizes_of(a_labels@, a_dims@, g@.contracted),
        r.free_a@ == sizes_of(a_labels@, a_dims@, g@.free_a),
        r.free_b@ == sizes_of(b_labels@, b_dims@, g@.free_b),
{
    proof {
        lemma_picked(output@, a_labels@, true, b_labels@, true);
        lemma_picked(a_labels@, b_labels@, true, output@, false);
        lemma_picked(a_labels@, b_labels@, false, seq![], false);
        lemma_picked(b_labels@, a_labels@, false, seq![], false);
    }
    GroupSizes {
        batch: dims_of(a_labels, a_dims, &g.batch),
        contracted: dims_of(a_labels, a_dims, &g.contracted),
        free_a: dims_of(a_labels, a_dims, &g.free_a),
        free_b: dims_of(b_labels, b_dims, &g.free_b),
    }
}

fn contract_pair(b: &mut OnnxBuilder, x: &Term, y: &Term, output: &Vec<char>, label: &String) -> (r:
    Operand)
    requires
        x@.labels.len() == x@.dims.len(),
        y@.labels.len() == y@.dims.len(),
        groups_in_range(x@.labels, x@.dims, y@.labels, y@.dims, output@),
    ensures
        final(b)@ == contracted_pair(old(b)@, x@, y@, output@, label@).ops,
        r@ == contracted_pair(old(b)@, x@, y@, output@, label@).operand,
{
    let g = split_groups(&x.labels, &y.labels, output);
    let s = group_sizes(&x.labels, &x.dims, &y.labels, &y.dims, output, &g);
    let nb: i64 = range_product(&s.batch);
    let fa: i64 = range_product(&s.free_a);
    let fb: i64 = range_product(&s.free_b);
    let c: i64 = range_product(&s.contracted);

    let a_order = joined(&g.batch, &g.free_a, &g.contracted);
    let a_t = transpose_to(b, x, &a_order, label_with(label, "__a_perm"));
    let a_3d = b.reshape(a_t, list3(nb, fa, c), label_with(label, "__a_3d"));

    let b_order = joined(&g.batch, &g.contracted, &g.free_b);
    let b_t = transpose_to(b, y, &b_order, label_with(label, "__b_perm"));
    let b_3d = b.reshape(b_t, list3(nb, c, fb), label_with(label, "__b_3d"));

    let product = b.binary(BinaryOp::Matmul, a_3d, b_3d, label_with(label, "__matmul"));

    let unpacked_dims = joined(&s.batch, &s.free_a, &s.free_b);
    let own_dims: Vec<i64> = unpacked_dims.clone();
    assert(own_dims@ =~= unpacked_dims@);
    let unpacked = b.reshape(product, own_dims, label_with(label, "__unpacked"));
    let labels = joined(&g.batch, &g.free_a, &g.free_b);
    let term = Term { operand: unpacked, labels, dims: unpacked_dims };
    transpose_to(b, &term, output, label_with(label, "__out_perm"))
}

fn range_product(v: &Vec<i64>) -> (r: i64)
    requires
        arith::product_fits(v@),
    ensures
        r == arith::product(v@),
{
    match arith::checked_product(v) {
        Some(p) => p,
        None => 0,
    }
}

fn joined<T: Copy>(a: &Vec<T>, b: &Vec<T>, c: &Vec<T>) -> (r: Vec<T>)
    ensures
        r@ == a@ + b@ + c@,
{
    let mut out: Vec<T> = Vec::new();
    append_all(&mut out, a);
    append_all(&mut out, b);
    append_all(&mut out, c);
    assert(out@ =~= a@ + b@ + c@);
    out
}

fn append_all<T: Copy>(out: &mut Vec<T>, v: &Vec<T>)
    ensures
        final(out)@ == old(out)@ + v@,
{
    let ghost start = out@;
    let mut i: usize = 0;
    assert(start + v@.take(0) =~= start);
    while i < v.len()
        invariant
            i <= v@.len(),
            out@ == start + v@.take(i as int),
        decreases v@.len() - i,
    {
        out.push(v[i]);
        i = i + 1;
        assert(out@ =~= start + v@.take(i as int));
    }
    assert(v@.take(i as int) =~= v@);
}

// ---------------------------------------------------------------------------
// Lowering
// ---------------------------------------------------------------------------

/// The equation of a node.
pub open spec fn node_equation(node: NodeV) -> Option<Seq<char>> {
    match context::first_attr(node.attribute, "equation"@) {
        Some(a) => Some(text::utf8_lossy(a.s)),
        None => None,
    }
}

/// The labels of a node, or the first thing that is wrong with it.
pub open spec fn einsum_params(node: NodeV, name: Seq<char>) -> Result<ParsedV, ErrorV> {
    match node_equation(node) {
        None => Err(
            ErrorV::InvalidShape("Einsum node "@ + name + " has no equation"@),
        ),
        Some(equation) => if node.input.len() == 0 || node.input.len() > 2 {
            Err(
                error::unsupported(
                    "Einsum("@ + text::decimal(node.input.len() as int) + " inputs)"@,
                    name,
                ),
            )
        } else {
            parsed_equation(equation, node.input.len() as int, name)
        },
    }
}

/// The terms contracted to the output.
pub open spec fn contracted(
    ops: Seq<OpV>,
    terms: Seq<TermV>,
    p: ParsedV,
    label: Seq<char>,
) -> Part {
    let first = sum_term(ops, terms[0], p.input_specs, p.output_spec, 0, label);
    if terms.len() == 1 {
        reordered(first.ops, first.term, p.output_spec, label + "__perm"@)
    } else {
        let second = sum_term(first.ops, terms[1], p.input_specs, p.output_spec, 1, label);
        contracted_pair(second.ops, first.term, second.term, p.output_spec, label)
    }
}

/// The lowering of an `Einsum` node.
pub open spec fn einsum_outcome(
    node: NodeV,
    name: Seq<char>,
    ctx: ContextV,
    ops: Seq<OpV>,
) -> NodeOutcome {
    match einsum_params(node, name) {
        Err(e) => ops::node_failed(ops, e),
        Ok(p) => {
            let label = node.label(name);
            let loaded = load_terms(
                ops,
                seq![],
                node,
                ctx,
                p.input_specs,
                node_equation(node)->0,
                0,
            );
            match loaded.result {
                Err(e) => ops::node_failed(loaded.ops, e),
                Ok(terms) => {
                    let out = contracted(loaded.ops, terms, p, label);
                    ops::node_done(
                        ops::recorded_or_named(out.ops, node.first_output(), label, out.operand),
                    )
                },
            }
        },
    }
}

/// Labels and sizes of an input once the labels that nothing else uses are
/// gone.
pub open spec fn summed_labels(p: ParsedV, index: int) -> Seq<char> {
    p.input_specs[index].filter(keep_fn(p.input_specs, p.output_spec, index))
}

pub open spec fn summed_dims(p: ParsedV, index: int, shape: Seq<i64>) -> Seq<i64> {
    kept_dims(p.input_specs[index], shape, keep_fn(p.input_specs, p.output_spec, index))
}

/// The products of the lowering stay in range.
pub open spec fn einsum_in_range(node: NodeV, name: Seq<char>, ctx: ContextV) -> bool {
    einsum_params(node, name) matches Ok(p) ==> node.input.len() == 2 && term_fits(
        node,
        ctx,
        p,
        0,
    ) && term_fits(node, ctx, p, 1) ==> groups_in_range(
        summed_labels(p, 0),
        summed_dims(p, 0, ctx.shape(node.input[0])->0),
        summed_labels(p, 1),
        summed_dims(p, 1, ctx.shape(node.input[1])->0),
        p.output_spec,
    )
}

/// An input has a shape that its term can label.
pub open spec fn term_fits(node: NodeV, ctx: ContextV, p: ParsedV, index: int) -> bool {
    shape_error(
        index,
        node.input[index],
        p.input_specs[index].len() as int,
        ctx.shape(node.input[index]),
        node_equation(node)->0,
    ) is None
}

proof fn lemma_kept(labels: Seq<char>, dims: Seq<i64>, keep: spec_fn(char) -> bool)
    requires
        labels.len() == dims.len(),
    ensures
        labels.filter(keep).len() == kept_dims(labels, dims, keep).len(),
        dropped_axes(labels, keep).len() == 0 ==> labels.filter(keep) == labels && kept_dims(
            labels,
            dims,
            keep,
        ) == dims,
    decreases labels.len(),
{
    reveal(Seq::filter);
    if labels.len() > 0 {
        lemma_kept(labels.drop_last(), dims.drop_last(), keep);
        lemma_kept_front(labels.drop_last(), dims, dims.drop_last(), keep);
        if dropped_axes(labels, keep).len() == 0 {
            assert(labels.filter(keep) =~= labels);
            assert(kept_dims(labels, dims, keep) =~= dims);
        }
    } else {
        assert(labels.filter(keep) =~= labels);
        assert(kept_dims(labels, dims, keep) =~= dims);
    }
}

proof fn lemma_kept_front(
    labels: Seq<char>,
    a: Seq<i64>,
    b: Seq<i64>,
    keep: spec_fn(char) -> bool,
)
    requires
        labels.len() <= a.len(),
        labels.len() <= b.len(),
        forall|i: int| 0 <= i < labels.len() ==> a[i] == b[i],
    ensures
        kept_dims(labels, a, keep) == kept_dims(labels, b, keep),
    decreases labels.len(),
{
    if labels.len() > 0 {
        lemma_kept_front(labels.drop_last(), a, b, keep);
    }
}

/// A term that has been summed has the labels and sizes named above.
pub proof fn lemma_sum_term(
    ops: Seq<OpV>,
    t: TermV,
    specs: Seq<Seq<char>>,
    output: Seq<char>,
    index: int,
    label: Seq<char>,
)
    requires
        t.labels.len() == t.dims.len(),
    ensures
        ({
            let r = sum_term(ops, t, specs, output, index, label).term;
            &&& r.labels == t.labels.filter(keep_fn(specs, output, index))
            &&& r.dims == kept_dims(t.labels, t.dims, keep_fn(specs, output, index))
            &&& r.labels.len() == r.dims.len()
        }),
{
    lemma_kept(t.labels, t.dims, keep_fn(specs, output, index));
}

spec fn loaded_term(
    t: TermV,
    node: NodeV,
    ctx: ContextV,
    p: ParsedV,
    index: int,
    equation: Seq<char>,
) -> bool {
    &&& t.labels == p.input_specs[index]
    &&& t.dims.len() == t.labels.len()
    &&& ctx.shape(node.input[index]) == Some(t.dims)
    &&& shape_error(
        index,
        node.input[index],
        p.input_specs[index].len() as int,
        ctx.shape(node.input[index]),
        equation,
    ) is None
}

fn load(
    b: &mut OnnxBuilder,
    node: &NodeProto,
    ctx: &ConversionContext,
    p: &ParsedEinsum,
    equation: &String,
) -> (r: Result<Vec<Term>, OnnxError>)
    requires
        p.input_specs@.len() == node.input@.len(),
    ensures
        ({
            let s = load_terms(
                old(b)@,
                seq![],
                node@,
                ctx@,
                p@.input_specs,
                equation@,
                0,
            );
            &&& final(b)@ == s.ops
            &&& r matches Err(e) ==> s.result == Err::<Seq<TermV>, ErrorV>(e@)
            &&& r matches Ok(v) ==> s.result == Ok::<Seq<TermV>, ErrorV>(terms_v(v@)) && v@.len()
                == node.input@.len() && (forall|i: int|
                0 <= i < v@.len() ==> loaded_term(#[trigger] terms_v(v@)[i], node@, ctx@, p@, i, equation@))
        }),
{
    let mut terms: Vec<Term> = Vec::new();
    let mut i: usize = 0;
    let ghost goal = load_terms(old(b)@, seq![], node@, ctx@, p@.input_specs, equation@, 0);
    assert(terms_v(terms@) =~= Seq::<TermV>::empty());
    while i < node.input.len()
        invariant
            i <= node.input@.len(),
            p.input_specs@.len() == node.input@.len(),
            terms@.len() == i,
            goal == load_terms(old(b)@, seq![], node@, ctx@, p@.input_specs, equation@, 0),
            goal == load_terms(
                b@,
                terms_v(terms@),
                node@,
                ctx@,
                p@.input_specs,
                equation@,
                i as int,
            ),
            forall|k: int|
                0 <= k < i ==> loaded_term(
                    #[trigger] terms_v(terms@)[k],
                    node@,
                    ctx@,
                    p@,
                    k,
                    equation@,
                ),
        decreases node.input@.len() - i,
    {
        assert(node@.input[i as int] == node.input@[i as int]@);
        assert(p@.input_specs[i as int] == p.input_specs@[i as int]@);
        let shape = match check_shape(i, &node.input[i], p.input_specs[i].len(), ctx, equation) {
            Ok(s) => s,
            Err(e) => return Err(e),
        };
        let operand = b.resolve(&node.input[i]);
        let labels = sub_chars(&p.input_specs[i], 0, p.input_specs[i].len());
        assert(labels@ =~= p@.input_specs[i as int]);
        let dims: Vec<i64> = shape.clone();
        assert(dims@ =~= shape@);
        let ghost before = terms_v(terms@);
        let t = Term { operand, labels, dims };
        let ghost tv = t@;
        terms.push(t);
        assert(terms_v(terms@) =~= before.push(tv));
        assert(forall|k: int| 0 <= k < i ==> #[trigger] terms_v(terms@)[k] == before[k]);
        i = i + 1;
    }
    Ok(terms)
}

fn find_params(node: &NodeProto, name: &String) -> (r: Result<(ParsedEinsum, String), OnnxError>)
    ensures
        r matches Err(e) ==> einsum_params(node@, name@) == Err::<ParsedV, ErrorV>(e@),
        r matches Ok(t) ==> einsum_params(node@, name@) == Ok::<ParsedV, ErrorV>(t.0@)
            && node_equation(node@) == Some(t.1@),
{
    let equation: String = match node.find_attr("equation") {
        Some(a) => text::from_utf8_lossy(&a.s),
        None => {
            let mut m = String::from_str("Einsum node ");
            m.append(name.as_str());
            m.append(" has no equation");
            return Err(OnnxError::InvalidShape(m));
        },
    };
    let count: usize = node.input.len();
    if count == 0 || count > 2 {
        let mut m = String::from_str("Einsum(");
        let d = text::decimal_usize(count);
        m.append(d.as_str());
        m.append(" inputs)");
        return Err(OnnxError::unsupported_op(m, name.clone()));
    }
    match parse_einsum_equation(equation.as_str(), count, name) {
        Ok(p) => Ok((p, equation)),
        Err(e) => Err(e),
    }
}

/// Lower an `Einsum` node.
pub fn convert_einsum(
    node: &NodeProto,
    node_name: &String,
    context: &ConversionContext,
    b: &mut OnnxBuilder,
) -> (r: Result<ConversionResult, OnnxError>)
    requires
        einsum_in_range(node@, node_name@, context@),
    ensures
        ops::node_outcome(final(b)@, r) == einsum_outcome(node@, node_name@, context@, old(b)@),
{
    let (p, equation) = match find_params(node, node_name) {
        Ok(t) => t,
        Err(e) => return Err(e),
    };
    let label = node.output_label(node_name);
    let mut terms: Vec<Term> = match load(b, node, context, &p, &equation) {
        Ok(t) => t,
        Err(e) => return Err(e),
    };
    let ghost all = terms_v(terms@);
    let ghost loaded = b@;
    assert(all[0].labels.len() == all[0].dims.len());
    let second: Option<Term> = if terms.len() == 2 {
        assert(all[1].labels.len() == all[1].dims.len());
        terms.pop()
    } else {
        None
    };
    let first: Term = terms.pop().unwrap();
    assert(first@ == all[0]);
    proof {
        lemma_sum_term(loaded, all[0], p@.input_specs, p@.output_spec, 0, label@);
    }
    let first = sum_unused(b, first, &p.input_specs, &p.output_spec, 0, &label);
    let out: Operand = match second {
        None => transpose_to(b, &first, &p.output_spec, label_with(&label, "__perm")),
        Some(t) => {
            assert(t@ == all[1]);
            proof {
                lemma_sum_term(b@, all[1], p@.input_specs, p@.output_spec, 1, label@);
            }
            let t = sum_unused(b, t, &p.input_specs, &p.output_spec, 1, &label);
            contract_pair(b, &first, &t, &p.output_spec, &label)
        },
    };
    ops::record_or_name(b, node.first_output(), label, out);
    Ok(ConversionResult::none())
}

fn einsum_range(node: &NodeProto, name: &String, ctx: &ConversionContext) -> (r: bool)
    ensures
        r == einsum_in_range(node@, name@, ctx@),
{
    let (p, equation) = match find_params(node, name) {
        Ok(t) => t,
        Err(_) => return true,
    };
    if node.input.len() != 2 {
        return true;
    }
    assert(node@.input[0] == node.input@[0]@);
    assert(node@.input[1] == node.input@[1]@);
    assert(p@.input_specs[0] == p.input_specs@[0]@);
    assert(p@.input_specs[1] == p.input_specs@[1]@);
    let a = match check_shape(0, &node.input[0], p.input_specs[0].len(), ctx, &equation) {
        Ok(s) => s,
        Err(_) => return true,
    };
    let b = match check_shape(1, &node.input[1], p.input_specs[1].len(), ctx, &equation) {
        Ok(s) => s,
        Err(_) => return true,
    };
    proof {
        lemma_kept(p@.input_specs[0], a@, keep_fn(p@.input_specs, p@.output_spec, 0));
        lemma_kept(p@.input_specs[1], b@, keep_fn(p@.input_specs, p@.output_spec, 1));
    }
    let x = keep_used(&p.input_specs[0], a, &p.input_specs, &p.output_spec, 0);
    let y = keep_used(&p.input_specs[1], b, &p.input_specs, &p.output_spec, 1);
    let g = split_groups(&x.labels, &y.labels, &p.output_spec);
    let s = group_sizes(&x.labels, &x.dims, &y.labels, &y.dims, &p.output_spec, &g);
    arith::checked_product(&s.batch).is_some() && arith::checked_product(&s.free_a).is_some()
        && arith::checked_product(&s.free_b).is_some() && arith::checked_product(
        &s.contracted,
    ).is_some()
}

// ---------------------------------------------------------------------------
// The lowering agrees with shape inference
// ---------------------------------------------------------------------------

/// Two lists with the same labels, each once.
pub open spec fn same_labels(x: Seq<char>, y: Seq<char>) -> bool {
    &&& x.no_duplicates()
    &&& y.no_duplicates()
    &&& x.len() == y.len()
    &&& forall|c: char| #[trigger] x.contains(c) <==> y.contains(c)
}

/// The sizes of labels.
pub open spec fn label_sizes(
    specs: Seq<Seq<char>>,
    shapes: Seq<Seq<i64>>,
    labels: Seq<char>,
) -> Seq<i64> {
    Seq::new(labels.len(), |i: int| label_size(specs, shapes, labels[i]))
}

/// The axes of two terms line up: each operand is rearranged to its groups,
/// both sides give the shared labels the same sizes, flattening and unpacking
/// keep the number of elements, and the product is rearranged to the output,
/// which then has this shape.
pub open spec fn pair_fits(a: TermV, b: TermV, output: Seq<char>, shape: Seq<i64>) -> bool {
    let g = groups(a.labels, b.labels, output);
    let unpacked = sizes_of(a.labels, a.dims, g.batch) + sizes_of(a.labels, a.dims, g.free_a)
        + sizes_of(b.labels, b.dims, g.free_b);
    &&& same_labels(a.labels, g.batch + g.free_a + g.contracted)
    &&& same_labels(b.labels, g.batch + g.contracted + g.free_b)
    &&& same_labels(g.batch + g.free_a + g.free_b, output)
    &&& sizes_of(a.labels, a.dims, g.batch) == sizes_of(b.labels, b.dims, g.batch)
    &&& sizes_of(a.labels, a.dims, g.contracted) == sizes_of(b.labels, b.dims, g.contracted)
    &&& arith::product(sizes_of(a.labels, a.dims, g.batch + g.free_a + g.contracted))
        == arith::product(sizes_of(a.labels, a.dims, g.batch)) * arith::product(
        sizes_of(a.labels, a.dims, g.free_a),
    ) * arith::product(sizes_of(a.labels, a.dims, g.contracted))
    &&& arith::product(sizes_of(b.labels, b.dims, g.batch + g.contracted + g.free_b))
        == arith::product(sizes_of(a.labels, a.dims, g.batch)) * arith::product(
        sizes_of(a.labels, a.dims, g.contracted),
    ) * arith::product(sizes_of(b.labels, b.dims, g.free_b))
    &&& arith::product(unpacked) == arith::product(sizes_of(a.labels, a.dims, g.batch))
        * arith::product(sizes_of(a.labels, a.dims, g.free_a)) * arith::product(
        sizes_of(b.labels, b.dims, g.free_b),
    )
    &&& sizes_of(g.batch + g.free_a + g.free_b, unpacked, output) == shape
}

proof fn lemma_three_products(t: TermV, x: Seq<char>, y: Seq<char>, z: Seq<char>)
    ensures
        arith::product(sizes_of(t.labels, t.dims, x + y + z)) == arith::product(
            sizes_of(t.labels, t.dims, x),
        ) * arith::product(sizes_of(t.labels, t.dims, y)) * arith::product(
            sizes_of(t.labels, t.dims, z),
        ),
{
    let sx = sizes_of(t.labels, t.dims, x);
    let sy = sizes_of(t.labels, t.dims, y);
    let sz = sizes_of(t.labels, t.dims, z);
    assert(sizes_of(t.labels, t.dims, x + y + z) =~= sx + sy + sz);
    arith::lemma_product_concat(sx, sy);
    arith::lemma_product_concat(sx + sy, sz);
}

/// Every axis of a term has the size of its label.
pub open spec fn sized(t: TermV, specs: Seq<Seq<char>>, shapes: Seq<Seq<i64>>) -> bool {
    t.labels.len() == t.dims.len() && forall|i: int|
        0 <= i < t.labels.len() ==> #[trigger] t.dims[i] == label_size(specs, shapes, t.labels[i])
}

proof fn lemma_term_labels_differ(
    terms: Seq<Seq<char>>,
    equation: Seq<char>,
    name: Seq<char>,
    i: int,
)
    requires
        terms_error(terms, equation, name) is None,
        0 <= i < terms.len(),
    ensures
        terms[i].no_duplicates(),
    decreases terms.len(),
{
    if i > 0 {
        lemma_term_labels_differ(terms.drop_first(), equation, name, i - 1);
    }
}

/// Whether the terms are in order does not depend on the node's name.
proof fn lemma_terms_name(
    terms: Seq<Seq<char>>,
    equation: Seq<char>,
    name: Seq<char>,
    other: Seq<char>,
)
    ensures
        terms_error(terms, equation, name) is None <==> terms_error(
            terms,
            equation,
            other,
        ) is None,
    decreases terms.len(),
{
    if terms.len() > 0 {
        lemma_terms_name(terms.drop_first(), equation, name, other);
    }
}

pub proof fn lemma_equation_name(equation: Seq<char>, n: int, name: Seq<char>, other: Seq<char>)
    requires
        parsed_equation(equation, n, name) is Ok,
    ensures
        parsed_equation(equation, n, other) == parsed_equation(equation, n, name),
{
    lemma_terms_name(split_terms(compact(equation).take(arrow(compact(equation)))), equation, name, other);
}

/// The labels of each input, and those of the output, differ.
pub proof fn lemma_labels_differ(equation: Seq<char>, n: int, name: Seq<char>)
    requires
        parsed_equation(equation, n, name) is Ok,
    ensures
        ({
            let p = parsed_equation(equation, n, name)->Ok_0;
            &&& p.input_specs.len() == n
            &&& p.output_spec.no_duplicates()
            &&& forall|i: int| 0 <= i < n ==> (#[trigger] p.input_specs[i]).no_duplicates()
        }),
{
    let p = parsed_equation(equation, n, name)->Ok_0;
    let s = compact(equation);
    assert forall|i: int| 0 <= i < n implies (#[trigger] p.input_specs[i]).no_duplicates() by {
        lemma_term_labels_differ(p.input_specs, equation, name, i);
    }
    if arrow(s) >= s.len() {
        let all = single_labels(p.input_specs, 65);
        assert forall|i: int, j: int| 0 <= i < all.len() && 0 <= j < all.len() && i != j implies all[i]
            != all[j] by {
            lemma_single_labels(p.input_specs, 65, i);
            lemma_single_labels(p.input_specs, 65, j);
            if i < j {
                assert((all[i] as int) < all[j] as int);
            } else {
                assert((all[j] as int) < all[i] as int);
            }
        }
    }
}

pub proof fn lemma_filter(v: Seq<char>, keep: spec_fn(char) -> bool)
    ensures
        forall|c: char| #[trigger] v.filter(keep).contains(c) <==> v.contains(c) && keep(c),
        v.no_duplicates() ==> v.filter(keep).no_duplicates(),
    decreases v.len(),
{
    reveal(Seq::filter);
    if v.len() > 0 {
        let front = v.drop_last();
        let x = v.last();
        let r = v.filter(keep);
        let f = front.filter(keep);
        lemma_filter(front, keep);
        assert forall|c: char| #[trigger] r.contains(c) <==> v.contains(c) && keep(c) by {
            if r.contains(c) {
                let k = choose|k: int| 0 <= k < r.len() && r[k] == c;
                if k < f.len() {
                    assert(f.contains(c));
                    let j = choose|j: int| 0 <= j < front.len() && front[j] == c;
                    assert(v[j] == c);
                } else {
                    assert(v[v.len() - 1] == c);
                }
            }
            if v.contains(c) && keep(c) {
                let k = choose|k: int| 0 <= k < v.len() && v[k] == c;
                if k < front.len() {
                    assert(front[k] == c);
                    assert(f.contains(c));
                    let j = choose|j: int| 0 <= j < f.len() && f[j] == c;
                    assert(r[j] == c);
                } else {
                    assert(r[r.len() - 1] == c);
                }
            }
        }
        if v.no_duplicates() {
            assert(front.no_duplicates());
            assert(!front.contains(x)) by {
                if front.contains(x) {
                    let j = choose|j: int| 0 <= j < front.len() && front[j] == x;
                    assert(v[j] == v[v.len() - 1]);
                }
            }
            assert(!f.contains(x));
            assert forall|i: int, j: int| 0 <= i < r.len() && 0 <= j < r.len() && i != j implies r[i]
                != r[j] by {
                if i < f.len() && j < f.len() {
                    assert(f[i] != f[j]);
                } else if i < f.len() {
                    assert(f.contains(f[i]));
                } else {
                    assert(f.contains(f[j]));
                }
            }
        }
    }
}

proof fn lemma_kept_sized(
    labels: Seq<char>,
    dims: Seq<i64>,
    keep: spec_fn(char) -> bool,
    specs: Seq<Seq<char>>,
    shapes: Seq<Seq<i64>>,
)
    requires
        labels.len() <= dims.len(),
        forall|i: int|
            0 <= i < labels.len() ==> #[trigger] dims[i] == label_size(specs, shapes, labels[i]),
    ensures
        kept_dims(labels, dims, keep) == label_sizes(specs, shapes, labels.filter(keep)),
    decreases labels.len(),
{
    reveal(Seq::filter);
    if labels.len() > 0 {
        lemma_kept_sized(labels.drop_last(), dims, keep, specs, shapes);
        assert(dims[labels.len() - 1] == label_size(specs, shapes, labels.last()));
    }
    assert(kept_dims(labels, dims, keep) =~= label_sizes(specs, shapes, labels.filter(keep)));
}

/// The labels of a term that is sized, in another order, have their sizes.
proof fn lemma_sizes(t: TermV, wanted: Seq<char>, specs: Seq<Seq<char>>, shapes: Seq<Seq<i64>>)
    requires
        sized(t, specs, shapes),
        forall|i: int| 0 <= i < wanted.len() ==> t.labels.contains(#[trigger] wanted[i]),
    ensures
        sizes_of(t.labels, t.dims, wanted) == label_sizes(specs, shapes, wanted),
{
    let x = sizes_of(t.labels, t.dims, wanted);
    let y = label_sizes(specs, shapes, wanted);
    assert forall|i: int| 0 <= i < wanted.len() implies x[i] == y[i] by {
        lemma_first_pos_found(t.labels, wanted[i]);
        assert(t.dims[text::first_pos(t.labels, wanted[i])] == y[i]);
    }
    assert(x =~= y);
}

/// Lists that share no label and together have those of `whole` are a
/// rearrangement of it.
proof fn lemma_three(x: Seq<char>, y: Seq<char>, z: Seq<char>, whole: Seq<char>)
    requires
        x.no_duplicates(),
        y.no_duplicates(),
        z.no_duplicates(),
        whole.no_duplicates(),
        forall|c: char| #[trigger] x.contains(c) ==> !y.contains(c) && !z.contains(c),
        forall|c: char| #[trigger] y.contains(c) ==> !z.contains(c),
        forall|c: char|
            #[trigger] whole.contains(c) <==> x.contains(c) || y.contains(c) || z.contains(c),
    ensures
        same_labels(x + y + z, whole),
        same_labels(whole, x + y + z),
{
    let all = x + y + z;
    assert forall|c: char| #[trigger] all.contains(c) <==> whole.contains(c) by {
        if all.contains(c) {
            let k = choose|k: int| 0 <= k < all.len() && all[k] == c;
            if k < x.len() {
                assert(x[k] == c);
            } else if k < x.len() + y.len() {
                assert(y[k - x.len()] == c);
            } else {
                assert(z[k - x.len() - y.len()] == c);
            }
        }
        if x.contains(c) {
            let k = choose|k: int| 0 <= k < x.len() && x[k] == c;
            assert(all[k] == c);
        }
        if y.contains(c) {
            let k = choose|k: int| 0 <= k < y.len() && y[k] == c;
            assert(all[x.len() + k] == c);
        }
        if z.contains(c) {
            let k = choose|k: int| 0 <= k < z.len() && z[k] == c;
            assert(all[x.len() + y.len() + k] == c);
        }
    }
    assert forall|i: int, j: int| 0 <= i < all.len() && 0 <= j < all.len() && i != j implies all[i]
        != all[j] by {
        lemma_place(x, y, z, i);
        lemma_place(x, y, z, j);
    }
    lemma_same_length(all, whole);
}

/// An entry of three lists stands in one of them.
proof fn lemma_place(x: Seq<char>, y: Seq<char>, z: Seq<char>, i: int)
    requires
        0 <= i < x.len() + y.len() + z.len(),
    ensures
        ({
            let c = (x + y + z)[i];
            if i < x.len() {
                c == x[i] && x.contains(c)
            } else if i < x.len() + y.len() {
                c == y[i - x.len()] && y.contains(c)
            } else {
                c == z[i - x.len() - y.len()] && z.contains(c)
            }
        }),
{
}

pub proof fn lemma_same_length(x: Seq<char>, y: Seq<char>)
    requires
        x.no_duplicates(),
        y.no_duplicates(),
        forall|c: char| #[trigger] x.contains(c) <==> y.contains(c),
    ensures
        x.len() == y.len(),
{
    x.unique_seq_to_set();
    y.unique_seq_to_set();
    assert(x.to_set() =~= y.to_set());
}

/// The groups of two summed terms, and their sizes.
pub proof fn lemma_pair_fits(
    a: TermV,
    b: TermV,
    output: Seq<char>,
    specs: Seq<Seq<char>>,
    shapes: Seq<Seq<i64>>,
)
    requires
        a.labels.no_duplicates(),
        b.labels.no_duplicates(),
        output.no_duplicates(),
        sized(a, specs, shapes),
        sized(b, specs, shapes),
        forall|c: char| #[trigger]
            output.contains(c) ==> a.labels.contains(c) || b.labels.contains(c),
        forall|c: char| #[trigger]
            a.labels.contains(c) ==> output.contains(c) || b.labels.contains(c),
        forall|c: char| #[trigger]
            b.labels.contains(c) ==> output.contains(c) || a.labels.contains(c),
    ensures
        pair_fits(a, b, output, label_sizes(specs, shapes, output)),
{
    let g = groups(a.labels, b.labels, output);
    let none = Seq::<char>::empty();
    lemma_filter(output, |c: char| a.labels.contains(c) == true && b.labels.contains(c) == true);
    lemma_filter(a.labels, |c: char| b.labels.contains(c) == true && output.contains(c) == false);
    lemma_filter(a.labels, |c: char| b.labels.contains(c) == false && none.contains(c) == false);
    lemma_filter(b.labels, |c: char| a.labels.contains(c) == false && none.contains(c) == false);
    assert(forall|c: char| #[trigger]
        g.batch.contains(c) <==> output.contains(c) && a.labels.contains(c) && b.labels.contains(
            c,
        ));
    assert(forall|c: char| #[trigger]
        g.contracted.contains(c) <==> a.labels.contains(c) && b.labels.contains(c)
            && !output.contains(c));
    assert(forall|c: char| #[trigger]
        g.free_a.contains(c) <==> a.labels.contains(c) && !b.labels.contains(c));
    assert(forall|c: char| #[trigger]
        g.free_b.contains(c) <==> b.labels.contains(c) && !a.labels.contains(c));
    lemma_three(g.batch, g.free_a, g.contracted, a.labels);
    lemma_three(g.batch, g.contracted, g.free_b, b.labels);
    lemma_three(g.batch, g.free_a, g.free_b, output);
    assert(forall|i: int| 0 <= i < g.batch.len() ==> g.batch.contains(#[trigger] g.batch[i]));
    assert(forall|i: int|
        0 <= i < g.contracted.len() ==> g.contracted.contains(#[trigger] g.contracted[i]));
    assert(forall|i: int| 0 <= i < g.free_a.len() ==> g.free_a.contains(#[trigger] g.free_a[i]));
    assert(forall|i: int| 0 <= i < g.free_b.len() ==> g.free_b.contains(#[trigger] g.free_b[i]));
    lemma_sizes(a, g.batch, specs, shapes);
    lemma_sizes(b, g.batch, specs, shapes);
    lemma_sizes(a, g.contracted, specs, shapes);
    lemma_sizes(b, g.contracted, specs, shapes);
    lemma_sizes(a, g.free_a, specs, shapes);
    lemma_sizes(b, g.free_b, specs, shapes);
    let order = g.batch + g.free_a + g.free_b;
    let unpacked = sizes_of(a.labels, a.dims, g.batch) + sizes_of(a.labels, a.dims, g.free_a)
        + sizes_of(b.labels, b.dims, g.free_b);
    assert(unpacked =~= label_sizes(specs, shapes, order));
    lemma_three_products(a, g.batch, g.free_a, g.contracted);
    lemma_three_products(b, g.batch, g.contracted, g.free_b);
    arith::lemma_product_concat(
        sizes_of(a.labels, a.dims, g.batch),
        sizes_of(a.labels, a.dims, g.free_a),
    );
    arith::lemma_product_concat(
        sizes_of(a.labels, a.dims, g.batch) + sizes_of(a.labels, a.dims, g.free_a),
        sizes_of(b.labels, b.dims, g.free_b),
    );
    let joined = TermV { operand: a.operand, labels: order, dims: unpacked };
    assert(forall|i: int| 0 <= i < output.len() ==> output.contains(#[trigger] output[i]));
    lemma_sizes(joined, output, specs, shapes);
}

/// A term with the labels that nothing else uses summed away.
pub proof fn lemma_summed(
    ops: Seq<OpV>,
    t: TermV,
    p: ParsedV,
    shapes: Seq<Seq<i64>>,
    index: int,
    label: Seq<char>,
)
    requires
        0 <= index < p.input_specs.len(),
        t.labels == p.input_specs[index],
        t.dims == shapes[index],
        t.labels.no_duplicates(),
        ranks_match(p.input_specs, shapes),
        sizes_agree(p.input_specs, shapes),
    ensures
        ({
            let r = sum_term(ops, t, p.input_specs, p.output_spec, index, label).term;
            &&& sized(r, p.input_specs, shapes)
            &&& r.labels.no_duplicates()
            &&& forall|c: char| #[trigger]
                r.labels.contains(c) <==> t.labels.contains(c) && keeps(
                    p.input_specs,
                    p.output_spec,
                    index,
                    c,
                )
        }),
{
    let keep = keep_fn(p.input_specs, p.output_spec, index);
    assert(p.input_specs[index].len() == shapes[index].len());
    lemma_sum_term(ops, t, p.input_specs, p.output_spec, index, label);
    lemma_filter(t.labels, keep);
    lemma_kept_sized(t.labels, t.dims, keep, p.input_specs, shapes);
}

/// The lowering of an equation on one input agrees with shape inference: what
/// is left of the input is a rearrangement of the output, which has the
/// inferred shape.
pub proof fn law_single_input_has_the_inferred_shape(
    equation: Seq<char>,
    name: Seq<char>,
    shapes: Seq<Seq<i64>>,
    ops: Seq<OpV>,
    t: TermV,
    label: Seq<char>,
)
    requires
        parsed_equation(equation, 1, name) is Ok,
        shapes.len() == 1,
        equation_shape(equation, shapes) is Some,
        t.labels == parsed_equation(equation, 1, name)->Ok_0.input_specs[0],
        t.dims == shapes[0],
    ensures
        ({
            let p = parsed_equation(equation, 1, name)->Ok_0;
            let a = sum_term(ops, t, p.input_specs, p.output_spec, 0, label).term;
            &&& same_labels(a.labels, p.output_spec)
            &&& Some(sizes_of(a.labels, a.dims, p.output_spec)) == equation_shape(equation, shapes)
        }),
{
    let p = parsed_equation(equation, 1, name)->Ok_0;
    lemma_equation_name(equation, 1, name, "shape-inference"@);
    lemma_labels_differ(equation, 1, name);
    lemma_summed(ops, t, p, shapes, 0, label);
    let a = sum_term(ops, t, p.input_specs, p.output_spec, 0, label).term;
    assert forall|c: char| #[trigger] a.labels.contains(c) <==> p.output_spec.contains(c) by {
        if p.output_spec.contains(c) {
            let k = choose|k: int| 0 <= k < p.output_spec.len() && p.output_spec[k] == c;
            lemma_output_known(equation, 1, name, k);
        }
    }
    lemma_same_length(a.labels, p.output_spec);
    assert(forall|i: int|
        0 <= i < p.output_spec.len() ==> p.output_spec.contains(#[trigger] p.output_spec[i]));
    lemma_sizes(a, p.output_spec, p.input_specs, shapes);
}

/// The lowering of an equation on two inputs agrees with shape inference: the
/// axes of the two terms line up, and the product is a rearrangement of the
/// output, which has the inferred shape.
pub proof fn law_contraction_has_the_inferred_shape(
    equation: Seq<char>,
    name: Seq<char>,
    shapes: Seq<Seq<i64>>,
    ops: Seq<OpV>,
    terms: Seq<TermV>,
    label: Seq<char>,
)
    requires
        parsed_equation(equation, 2, name) is Ok,
        shapes.len() == 2,
        equation_shape(equation, shapes) is Some,
        terms.len() == 2,
        terms[0].labels == parsed_equation(equation, 2, name)->Ok_0.input_specs[0],
        terms[1].labels == parsed_equation(equation, 2, name)->Ok_0.input_specs[1],
        terms[0].dims == shapes[0],
        terms[1].dims == shapes[1],
    ensures
        ({
            let p = parsed_equation(equation, 2, name)->Ok_0;
            let first = sum_term(ops, terms[0], p.input_specs, p.output_spec, 0, label);
            let second = sum_term(first.ops, terms[1], p.input_specs, p.output_spec, 1, label);
            pair_fits(
                first.term,
                second.term,
                p.output_spec,
                equation_shape(equation, shapes)->0,
            )
        }),
{
    let p = parsed_equation(equation, 2, name)->Ok_0;
    let specs = p.input_specs;
    let out = p.output_spec;
    lemma_equation_name(equation, 2, name, "shape-inference"@);
    lemma_labels_differ(equation, 2, name);
    let first = sum_term(ops, terms[0], specs, out, 0, label);
    lemma_summed(ops, terms[0], p, shapes, 0, label);
    lemma_summed(first.ops, terms[1], p, shapes, 1, label);
    let a = first.term;
    let b = sum_term(first.ops, terms[1], specs, out, 1, label).term;
    assert forall|c: char| #[trigger] out.contains(c) implies a.labels.contains(c)
        || b.labels.contains(c) by {
        let k = choose|k: int| 0 <= k < out.len() && out[k] == c;
        lemma_output_known(equation, 2, name, k);
        assert(specs[0].contains(c) || specs[1].contains(c));
    }
    assert forall|c: char| #[trigger] a.labels.contains(c) implies out.contains(c)
        || b.labels.contains(c) by {
        if !out.contains(c) {
            assert(specs[0].contains(c) && specs[1].contains(c));
            assert(keeps(specs, out, 1, c));
        }
    }
    assert forall|c: char| #[trigger] b.labels.contains(c) implies out.contains(c)
        || a.labels.contains(c) by {
        if !out.contains(c) {
            assert(specs[1].contains(c) && specs[0].contains(c));
            assert(keeps(specs, out, 0, c));
        }
    }
    lemma_pair_fits(a, b, out, specs, shapes);
    assert(label_sizes(specs, shapes, out) =~= equation_shape(equation, shapes)->0);
}

impl EinsumHandler {
    pub fn supports(&self, op_type: &str) -> (r: bool)
        ensures
            r == (op_type@ == "Einsum"@),
    {
        text::str_eq(op_type, "Einsum")
    }

    /// Whether [`Self::convert`] can be called on the node.
    pub fn in_range(&self, node: &NodeProto, context: &ConversionContext) -> (r: bool)
        ensures
            r == einsum_in_range(node@, node@.display_name(), context@),
    {
        let node_name = node.display_name();
        einsum_range(node, &node_name, context)
    }

    pub fn convert(&self, node: &NodeProto, context: &ConversionContext, b: &mut OnnxBuilder) -> (r:
        Result<ConversionResult, OnnxError>)
        requires
            einsum_in_range(node@, node@.display_name(), context@),
        ensures
            ops::node_outcome(final(b)@, r) == einsum_outcome(
                node@,
                node@.display_name(),
                context@,
                old(b)@,
            ),
    {
        let node_name = node.display_name();
        convert_einsum(node, &node_name, context, b)
    }
}

} // verus!
