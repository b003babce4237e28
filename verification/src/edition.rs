//! CellScript source-language editions and the compatibility profile that an
//! edition resolves to.
//!
//! Editions are a closed set. A package must opt into the current edition
//! explicitly in `Cell.toml`; missing or unknown editions are rejected.

use vstd::prelude::*;
use crate::error::CompileError;
use crate::text::{chars_eq_str, str_chars, string_push_str};

verus! {

/// CellScript source-language edition.
#[derive(Debug, Clone, Copy, PartialEq, Eq, Hash)]
pub enum CellScriptEdition {
    Edition2026,
}

pub const CURRENT_EDITION: CellScriptEdition = CellScriptEdition::Edition2026;

impl Default for CellScriptEdition {
    fn default() -> (r: Self)
        ensures
            r == CURRENT_EDITION,
    {
        CURRENT_EDITION
    }
}

/// The names of the entry witness wire contracts that a profile pins.
#[derive(Debug, Clone)]
pub struct EntryWitnessContract {
    pub payload_abi: String,
    pub placement_abi: String,
    pub placement_field: String,
    pub placement_source: String,
}

/// Fully resolved compile-time compatibility contract.
///
/// The edition selects language semantics and safe defaults. Wire contracts
/// remain independently named because CKB-VM cannot read `Cell.toml`.
#[derive(Debug, Clone)]
pub struct ResolvedCompatibilityProfile {
    pub id: String,
    pub edition: CellScriptEdition,
    pub source_semantics: String,
    pub target_profile: String,
    pub primitive_assurance: String,
    pub entry_witness_payload_abi: String,
    pub entry_witness_placement_abi: String,
    pub entry_witness_placement_field: String,
    pub entry_witness_placement_source: String,
    pub raw_entry_witness_payload_compatible: bool,
}

/// The manifest spelling of an edition.
pub open spec fn spec_edition_str(e: CellScriptEdition) -> Seq<char> {
    match e {
        CellScriptEdition::Edition2026 => "2026"@,
    }
}

/// The identifier of the profile resolved for an edition, target and assurance level.
pub open spec fn spec_profile_id(edition: Seq<char>, target: Seq<char>, assurance: Seq<char>) -> Seq<char> {
    "cellscript-edition-"@ + edition + "-"@ + target + "-witnessargs-input-type-v2-csargv1-"@ + assurance
}

/// The message with which an unknown edition is refused.
pub open spec fn spec_unsupported_edition_message(value: Seq<char>) -> Seq<char> {
    "unsupported CellScript edition '"@ + value + "'; expected 2026"@
}

fn owned(s: &str) -> (r: String)
    ensures
        r@ == s@,
{
    let mut r = String::new();
    string_push_str(&mut r, s);
    assert(r@ =~= s@);
    r
}

impl CellScriptEdition {
    /// The manifest spelling of the edition.
    pub fn as_str(self) -> (r: &'static str)
        ensures
            r@ == spec_edition_str(self),
    {
        match self {
            CellScriptEdition::Edition2026 => "2026",
        }
    }

    /// Resolves the compatibility profile that compiling with this edition
    /// for `target_profile` commits to; the primitive assurance level
    /// defaults to `default`.
    pub fn resolve_compatibility_profile(
        self,
        target_profile: &str,
        primitive_assurance: Option<&str>,
        entry_witness: &EntryWitnessContract,
    ) -> (r: ResolvedCompatibilityProfile)
        ensures
            r.primitive_assurance@ == (match primitive_assurance {
                Some(a) => a@,
                None => "default"@,
            }),
            r.id@ == spec_profile_id(spec_edition_str(self), target_profile@, r.primitive_assurance@),
            r.edition == self,
            r.source_semantics@ == "cellscript-source-semantics-2026"@,
            r.target_profile@ == target_profile@,
            r.entry_witness_payload_abi@ == entry_witness.payload_abi@,
            r.entry_witness_placement_abi@ == entry_witness.placement_abi@,
            r.entry_witness_placement_field@ == entry_witness.placement_field@,
            r.entry_witness_placement_source@ == entry_witness.placement_source@,
            !r.raw_entry_witness_payload_compatible,
    {
        let primitive_assurance = match primitive_assurance {
            Some(a) => owned(a),
            None => owned("default"),
        };
        let mut id = String::new();
        string_push_str(&mut id, "cellscript-edition-");
        string_push_str(&mut id, self.as_str());
        string_push_str(&mut id, "-");
        string_push_str(&mut id, target_profile);
        string_push_str(&mut id, "-witnessargs-input-type-v2-csargv1-");
        string_push_str(&mut id, primitive_assurance.as_str());
        assert(id@ =~= spec_profile_id(spec_edition_str(self), target_profile@, primitive_assurance@));
        ResolvedCompatibilityProfile {
            id,
            edition: self,
            source_semantics: owned("cellscript-source-semantics-2026"),
            target_profile: owned(target_profile),
            primitive_assurance,
            entry_witness_payload_abi: entry_witness.payload_abi.clone(),
            entry_witness_placement_abi: entry_witness.placement_abi.clone(),
            entry_witness_placement_field: entry_witness.placement_field.clone(),
            entry_witness_placement_source: entry_witness.placement_source.clone(),
            raw_entry_witness_payload_compatible: false,
        }
    }
}

/// The edition that a manifest spelling names, if any.
pub open spec fn spec_parse_edition(value: Seq<char>) -> Option<CellScriptEdition> {
    if value == "2026"@ {
        Some(CellScriptEdition::Edition2026)
    } else {
        None
    }
}

/// Reading an edition's manifest spelling gives the edition back.
pub proof fn lemma_edition_round_trip(e: CellScriptEdition)
    ensures
        spec_parse_edition(spec_edition_str(e)) == Some(e),
{
}

/// Reads an edition from its manifest spelling; only `2026` is accepted.
pub fn parse_edition(value: &str) -> (r: Result<CellScriptEdition, CompileError>)
    ensures
        r is Ok <==> spec_parse_edition(value@) is Some,
        r matches Ok(x) ==> spec_parse_edition(value@) == Some(x),
        value@ == "2026"@ ==> r == Ok::<CellScriptEdition, CompileError>(CellScriptEdition::Edition2026),
        value@ != "2026"@ ==> (r matches Err(e) && e.message@ == spec_unsupported_edition_message(value@)),
{
    let chars = str_chars(value);
    if chars_eq_str(chars.as_slice(), "2026") {
        Ok(CellScriptEdition::Edition2026)
    } else {
        let mut message = String::new();
        string_push_str(&mut message, "unsupported CellScript edition '");
        string_push_str(&mut message, value);
        string_push_str(&mut message, "'; expected 2026");
        assert(message@ =~= spec_unsupported_edition_message(value@));
        Err(CompileError::without_span(message))
    }
}

impl std::str::FromStr for CellScriptEdition {
    type Err = CompileError;

    fn from_str(value: &str) -> (r: Result<Self, Self::Err>)
        ensures
            r is Ok <==> spec_parse_edition(value@) is Some,
            r matches Ok(x) ==> spec_parse_edition(value@) == Some(x),
            value@ != "2026"@ ==> (r matches Err(e) && e.message@ == spec_unsupported_edition_message(value@)),
    {
        parse_edition(value)
    }
}

} // verus!
