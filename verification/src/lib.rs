//! Feedback-directed test generator for JavaScript library APIs.
//!
//! The crate models generated tests as trees of function calls, tracks the
//! provenance of values through access paths, keeps a registry of discovered
//! module functions, and classifies the outcome of executed tests from their
//! instrumented traces.

use vstd::prelude::*;

pub mod code_gen;
pub mod consts;
pub mod decisions;
pub mod errors;
pub mod functions;
pub mod mined_seed_reps;
pub mod module_reps;
pub mod strutil;
pub mod tests;

verus! {

/// Modes the test generator can run in; newer modes extend older ones.
#[derive(Debug, Eq, PartialEq, Structural, Clone, Copy)]
pub enum TestGenMode {
    /// Most up-to-date variant (the default).
    Head,
    /// The original generator, with quality-of-life fixes.
    OGNessie,
    /// OGNessie plus tracking of primitive argument types.
    TrackPrimitives,
    /// TrackPrimitives with the discovery and generation phases merged.
    MergeDiscGen,
    /// MergeDiscGen with chained method calls on return values.
    ChainedMethods,
}

impl TestGenMode {
    /// Does this mode include a separate API discovery phase?
    pub fn has_discovery(&self) -> (r: bool)
        ensures
            r,
    {
        true
    }

    /// Does this mode support constructors? Only the original generator does not.
    pub fn supports_constructors(&self) -> (r: bool)
        ensures
            r == !(*self is OGNessie),
    {
        !matches!(self, Self::OGNessie)
    }

    /// Does this mode chain method calls on the return values of previous calls?
    pub fn chains_methods_on_retvals(&self) -> (r: bool)
        ensures
            r == (*self is ChainedMethods || *self is Head),
    {
        matches!(self, Self::ChainedMethods | Self::Head)
    }

    /// Does this mode discover new API signatures during test generation?
    pub fn discovers_during_testgen(&self) -> (r: bool)
        ensures
            r == !(*self is OGNessie || *self is TrackPrimitives),
    {
        !matches!(self, Self::OGNessie | Self::TrackPrimitives)
    }

    /// Does this mode track the types of primitive arguments?
    pub fn tracks_prim_types(&self) -> (r: bool)
        ensures
            r == !(*self is OGNessie),
    {
        !matches!(self, Self::OGNessie)
    }

    /// Will this mode generate calls for a function with the given name? The
    /// original generator skips no-name functions (modules that must be
    /// invoked immediately); every other mode accepts all names.
    pub fn will_gen_call_for(&self, fct_name: &str) -> (r: bool)
        ensures
            r == (!(*self is OGNessie) || fct_name@.len() > 0),
    {
        match self {
            Self::OGNessie => !fct_name.is_empty(),
            _ => true,
        }
    }

    /// Short label for this mode.
    pub fn label(&self) -> (r: String)
        ensures
            (*self is Head ==> r@ == "Head"@) && (*self is OGNessie ==> r@ == "OGNessie"@) && (
            *self is TrackPrimitives ==> r@ == "TrackPrimitives"@) && (*self is MergeDiscGen
                ==> r@ == "MergeDiscGen"@) && (*self is ChainedMethods ==> r@
                == "ChainedMethods"@),
    {
        let s: &str = match self {
            Self::Head => "Head",
            Self::OGNessie => "OGNessie",
            Self::TrackPrimitives => "TrackPrimitives",
            Self::MergeDiscGen => "MergeDiscGen",
            Self::ChainedMethods => "ChainedMethods",
        };
        s.to_owned()
    }

    /// Parse a mode from its label; an error on any other string.
    pub fn from_str(s: &str) -> (r: Result<Self, ()>)
        ensures
            s@ == "Head"@ ==> r == Result::<Self, ()>::Ok(TestGenMode::Head),
            s@ == "OGNessie"@ ==> r == Result::<Self, ()>::Ok(TestGenMode::OGNessie),
            s@ == "TrackPrimitives"@ ==> r == Result::<Self, ()>::Ok(TestGenMode::TrackPrimitives),
            s@ == "MergeDiscGen"@ ==> r == Result::<Self, ()>::Ok(TestGenMode::MergeDiscGen),
            s@ == "ChainedMethods"@ ==> r == Result::<Self, ()>::Ok(TestGenMode::ChainedMethods),
            !(s@ == "Head"@ || s@ == "OGNessie"@ || s@ == "TrackPrimitives"@ || s@
                == "MergeDiscGen"@ || s@ == "ChainedMethods"@) ==> r == Result::<Self, ()>::Err(
                (),
            ),
    {
        proof {
            reveal_strlit("Head");
            reveal_strlit("OGNessie");
            reveal_strlit("TrackPrimitives");
            reveal_strlit("MergeDiscGen");
            reveal_strlit("ChainedMethods");
            assert("Head"@.len() == 4);
            assert("OGNessie"@.len() == 8);
            assert("TrackPrimitives"@.len() == 15);
            assert("MergeDiscGen"@.len() == 12);
            assert("ChainedMethods"@.len() == 14);
        }
        if crate::strutil::str_eq(s, "Head") {
            Result::Ok(Self::Head)
        } else if crate::strutil::str_eq(s, "OGNessie") {
            Result::Ok(Self::OGNessie)
        } else if crate::strutil::str_eq(s, "TrackPrimitives") {
            Result::Ok(Self::TrackPrimitives)
        } else if crate::strutil::str_eq(s, "MergeDiscGen") {
            Result::Ok(Self::MergeDiscGen)
        } else if crate::strutil::str_eq(s, "ChainedMethods") {
            Result::Ok(Self::ChainedMethods)
        } else {
            Result::Err(())
        }
    }
}

} // verus!
