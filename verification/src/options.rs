//! Conversion options.
use crate::error;
use crate::error::{ErrorV, OnnxError};
use crate::names::NameMap;
use crate::overrides;
use crate::text;
use vstd::prelude::*;

verus! {

/// Options of a conversion.
pub struct ConvertOptions {
    /// Values for symbolic dimensions (`batch_size=1`, `sequence_length=128`).
    pub free_dim_overrides: NameMap<u32>,
    /// Fold constants and propagate shapes.
    pub optimize: bool,
    /// Keep unresolved input dimensions as dynamic ones.
    pub experimental_dynamic_inputs: bool,
    /// Graph inputs frozen to a constant (`use_cache_branch=false`), so that the
    /// `If` nodes they gate can be inlined.
    pub pinned_inputs: NameMap<i64>,
    /// Zero-fill external tensors whose data file is missing, so that a model
    /// without its weights can be converted.
    pub zero_fill_missing_external_data: bool,
}

pub struct OptionsV {
    pub free_dim_overrides: Map<Seq<char>, u32>,
    pub optimize: bool,
    pub experimental_dynamic_inputs: bool,
    pub pinned_inputs: Map<Seq<char>, i64>,
    pub zero_fill_missing_external_data: bool,
}

impl View for ConvertOptions {
    type V = OptionsV;

    open spec fn view(&self) -> OptionsV {
        OptionsV {
            free_dim_overrides: self.free_dim_overrides@,
            optimize: self.optimize,
            experimental_dynamic_inputs: self.experimental_dynamic_inputs,
            pinned_inputs: self.pinned_inputs@,
            zero_fill_missing_external_data: self.zero_fill_missing_external_data,
        }
    }
}

/// Options that override, fold, pin and fill nothing.
pub open spec fn default_options() -> OptionsV {
    OptionsV {
        free_dim_overrides: Map::empty(),
        optimize: false,
        experimental_dynamic_inputs: false,
        pinned_inputs: Map::empty(),
        zero_fill_missing_external_data: false,
    }
}

impl Default for ConvertOptions {
    fn default() -> (r: Self)
        ensures
            r@ == default_options(),
            r.free_dim_overrides.entries().len() == 0,
            r.pinned_inputs.entries().len() == 0,
    {
        ConvertOptions {
            free_dim_overrides: NameMap::new(),
            optimize: false,
            experimental_dynamic_inputs: false,
            pinned_inputs: NameMap::new(),
            zero_fill_missing_external_data: false,
        }
    }
}

/// The options with the overrides of a file beside the model, which count only
/// where none are given.
pub open spec fn with_sidecar(o: OptionsV, doc: Seq<char>) -> OptionsV {
    if o.free_dim_overrides == Map::<Seq<char>, u32>::empty() {
        OptionsV { free_dim_overrides: overrides::merged(o.free_dim_overrides, doc), ..o }
    } else {
        o
    }
}

impl ConvertOptions {
    /// Whether the overrides of a file beside the model count.
    pub fn takes_sidecar(&self) -> (r: bool)
        ensures
            r == (self@.free_dim_overrides == Map::<Seq<char>, u32>::empty()),
    {
        self.free_dim_overrides.is_empty()
    }

    /// Adds the overrides of a file beside the model (`model.dims.json`), where
    /// none are given.
    pub fn merge_sidecar(&mut self, doc: &str)
        ensures
            final(self)@ == with_sidecar(old(self)@, doc@),
            final(self).pinned_inputs == old(self).pinned_inputs,
    {
        if self.takes_sidecar() {
            overrides::merge_json(&mut self.free_dim_overrides, doc);
        }
    }
}

/// What a `NAME=VALUE` argument says: the name and the value, each without the
/// white space around it.
pub open spec fn pinned_input(spec_text: Seq<char>) -> Result<(Seq<char>, i64), ErrorV> {
    let at = text::first_pos(spec_text, '=');
    if at >= spec_text.len() {
        Err(
            ErrorV::InvalidShape(
                "Invalid pin-input format: '"@ + spec_text + "'. Expected NAME=VALUE"@,
            ),
        )
    } else {
        let name = spec_text.take(at);
        let value = text::trimmed(spec_text.skip(at + 1));
        if value == "true"@ {
            Ok((text::trimmed(name), 1))
        } else if value == "false"@ {
            Ok((text::trimmed(name), 0))
        } else {
            match text::number_i64(value) {
                Some(v) => Ok((text::trimmed(name), v as i64)),
                None => Err(
                    ErrorV::InvalidShape(
                        "Invalid pin-input value '"@ + value + "' for '"@ + name
                            + "': expected true/false or an integer"@,
                    ),
                ),
            }
        }
    }
}

/// Parse a `--pin-input NAME=VALUE` argument (`true`/`false` or an integer).
pub fn parse_pinned_input(spec: &str) -> (r: Result<(String, i64), OnnxError>)
    ensures
        error::failed(r, |p: (String, i64)| (p.0@, p.1)) == pinned_input(spec@),
{
    let v = text::chars_of(spec);
    assert(v@.skip(0) =~= v@);
    let at: usize = text::find_char(&v, 0, '=');
    if at == v.len() {
        let mut m = String::from_str("Invalid pin-input format: '");
        m.append(spec);
        m.append("'. Expected NAME=VALUE");
        return Err(OnnxError::InvalidShape(m));
    }
    assert(v@.subrange(0, at as int) =~= spec@.take(at as int));
    assert(v@.subrange(at + 1, v@.len() as int) =~= spec@.skip(at + 1));
    let value = text::trim_range(&v, at + 1, v.len());
    let parsed: i64 = if text::str_eq(value.as_str(), "true") {
        1
    } else if text::str_eq(value.as_str(), "false") {
        0
    } else {
        match text::parse_i64(value.as_str()) {
            Some(n) => n,
            None => {
                let name = text::string_of(&v, 0, at);
                let mut m = String::from_str("Invalid pin-input value '");
                m.append(value.as_str());
                m.append("' for '");
                m.append(name.as_str());
                m.append("': expected true/false or an integer");
                return Err(OnnxError::InvalidShape(m));
            },
        }
    };
    Ok((text::trim_range(&v, 0, at), parsed))
}

} // verus!
