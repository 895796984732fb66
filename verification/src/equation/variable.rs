use vstd::prelude::*;

verus! {

/// An equation that stands for the value of one variable, found by its name.
#[derive(Debug, Clone)]
pub struct VariableEquation {
    name: String,
}

impl VariableEquation {
    /// The name of the variable.
    pub closed spec fn name_text(&self) -> Seq<char> {
        self.name@
    }

    /// The equation of the variable called `name`.
    pub fn new(name: &str) -> (e: Self)
        ensures
            e.name_text() == name@,
    {
        VariableEquation { name: name.to_string() }
    }

    /// The name of the variable.
    pub fn name(&self) -> (n: &str)
        ensures
            n@ == self.name_text(),
    {
        self.name.as_str()
    }
}

} // verus!
