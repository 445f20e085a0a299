//! The environment variables that a mapping may refer to, as plain values.

use vstd::prelude::*;

verus! {

/// One environment variable.
#[derive(Clone, Debug, PartialEq, Eq)]
pub struct Variable {
    pub name: String,
    pub value: String,
}

/// Mathematical model of a [`Variable`].
pub struct VariableSpec {
    pub name: Seq<char>,
    pub value: Seq<char>,
}

impl View for Variable {
    type V = VariableSpec;

    open spec fn view(&self) -> VariableSpec {
        VariableSpec { name: self.name@, value: self.value@ }
    }
}

/// A snapshot of the environment: the variables that are set. Where a name
/// occurs more than once, its first occurrence counts.
#[derive(Clone, Debug, PartialEq, Eq)]
pub struct Environment {
    pub vars: Vec<Variable>,
}

impl View for Environment {
    type V = Seq<VariableSpec>;

    open spec fn view(&self) -> Seq<VariableSpec> {
        self.vars@.map_values(|v: Variable| v@)
    }
}

/// The value of the first variable called `name`, if there is one.
pub open spec fn resolved(env: Seq<VariableSpec>, name: Seq<char>) -> Option<Seq<char>>
    decreases env.len(),
{
    if env.len() == 0 {
        None
    } else if env[0].name == name {
        Some(env[0].value)
    } else {
        resolved(env.skip(1), name)
    }
}

impl Environment {
    /// An environment in which no variable is set.
    pub fn new() -> (r: Environment)
        ensures
            r@ == Seq::<VariableSpec>::empty(),
    {
        let r = Environment { vars: Vec::new() };
        assert(r@ =~= Seq::<VariableSpec>::empty());
        r
    }

    /// Adds a variable after those that are there.
    pub fn set(&mut self, name: String, value: String)
        ensures
            final(self)@ == old(self)@.push(VariableSpec { name: name@, value: value@ }),
    {
        self.vars.push(Variable { name, value });
        assert(self@ =~= old(self)@.push(VariableSpec { name: name@, value: value@ }));
    }

    /// Looks a variable up by its name.
    pub fn resolve(&self, name: &str) -> (r: Option<&String>)
        ensures
            match r {
                Some(value) => resolved(self@, name@) == Some(value@),
                None => resolved(self@, name@) is None,
            },
    {
        let wanted = String::from_str(name);
        let mut i: usize = 0;
        assert(self@.skip(0) =~= self@);
        while i < self.vars.len()
            invariant
                i <= self.vars.len(),
                wanted@ == name@,
                resolved(self@, name@) == resolved(self@.skip(i as int), name@),
            decreases self.vars.len() - i,
        {
            let ghost rest = self@.skip(i as int);
            proof {
                assert(rest[0] == self.vars@[i as int]@);
                assert(rest.skip(1) =~= self@.skip(i + 1));
            }
            if self.vars[i].name == wanted {
                return Some(&self.vars[i].value);
            }
            i += 1;
        }
        assert(self@.skip(i as int) =~= Seq::<VariableSpec>::empty());
        None
    }
}

} // verus!
