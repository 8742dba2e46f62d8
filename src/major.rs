use vstd::prelude::*;

verus! {

/// A field of study.
#[derive(Clone, Copy, Debug, PartialEq, Eq, Structural)]
pub enum Major {
    ComputerScience,
    ElectricalEngineering,
    Undefined,
}

impl Major {
    /// The major that a code names: "CS" and "EE", exactly; any other code
    /// names none.
    pub open spec fn spec_classify(code: Seq<char>) -> Major {
        if code == "CS"@ {
            Major::ComputerScience
        } else if code == "EE"@ {
            Major::ElectricalEngineering
        } else {
            Major::Undefined
        }
    }

    /// Reads a major from its code.
    pub fn classify(major: &str) -> (r: Self)
        ensures
            r == Self::spec_classify(major@),
    {
        let code = major.to_owned();
        if code == String::from_str("CS") {
            Major::ComputerScience
        } else if code == String::from_str("EE") {
            Major::ElectricalEngineering
        } else {
            Major::Undefined
        }
    }
}

} // verus!
