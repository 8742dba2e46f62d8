use crate::major::Major;
use vstd::prelude::*;

verus! {

/// A student and the major read from their code.
#[derive(Debug)]
pub struct Student {
    pub name: String,
    pub major: Major,
}

impl Student {
    /// Creates a student named `name` whose major is given by its code.
    pub fn new(name: &str, major: &str) -> (r: Student)
        ensures
            r.name@ == name@,
            r.major == Major::spec_classify(major@),
    {
        Student { name: name.to_owned(), major: Major::classify(major) }
    }
}

} // verus!
