//! What a command says about its parameters.

use vstd::prelude::*;

verus! {

/// The documentation of a command's parameters: for each parameter its
/// name, what it is for, and the type of value expected.
#[derive(Clone, Debug)]
pub struct ParameterDocumentation {
    names: Option<Vec<&'static str>>,
    descriptions: Option<Vec<&'static str>>,
    expected_types: Option<Vec<&'static str>>,
}

impl View for ParameterDocumentation {
    type V = Seq<(&'static str, &'static str, &'static str)>;

    /// The parameters in order, each as its name, its description and its
    /// expected type.
    closed spec fn view(&self) -> Seq<(&'static str, &'static str, &'static str)> {
        match (self.names, self.descriptions, self.expected_types) {
            (Some(names), Some(descriptions), Some(expected_types)) => Seq::new(
                names@.len(),
                |i: int| (names@[i], descriptions@[i], expected_types@[i]),
            ),
            _ => Seq::empty(),
        }
    }
}

impl ParameterDocumentation {
    /// Either nothing is documented, or the three lists are there and have
    /// one length.
    pub closed spec fn wf(&self) -> bool {
        match self.names {
            Some(names) => self.descriptions is Some && self.expected_types is Some
                && self.descriptions->0@.len() == names@.len() && self.expected_types->0@.len()
                == names@.len(),
            None => true,
        }
    }

    /// The documentation of the parameters whose names, descriptions and
    /// expected types are given in three lists of one length.
    pub fn new(
        names: Vec<&'static str>,
        descriptions: Vec<&'static str>,
        expected_types: Vec<&'static str>,
    ) -> (r: Self)
        requires
            names@.len() == descriptions@.len(),
            descriptions@.len() == expected_types@.len(),
        ensures
            r.wf(),
            r@.len() == names@.len(),
            forall|i: int|
                0 <= i < names@.len() ==> #[trigger] r@[i] == (
                    names@[i],
                    descriptions@[i],
                    expected_types@[i],
                ),
    {
        Self {
            names: Some(names),
            descriptions: Some(descriptions),
            expected_types: Some(expected_types),
        }
    }

    /// The documented parameters, in order.
    pub fn entries(&self) -> (r: Vec<(&'static str, &'static str, &'static str)>)
        requires
            self.wf(),
        ensures
            r@ == self@,
    {
        let mut out: Vec<(&'static str, &'static str, &'static str)> = Vec::new();
        match (&self.names, &self.descriptions, &self.expected_types) {
            (Some(names), Some(descriptions), Some(expected_types)) => {
                let mut i: usize = 0;
                while i < names.len()
                    invariant
                        i <= names.len(),
                        descriptions.len() == names.len(),
                        expected_types.len() == names.len(),
                        out@.len() == i,
                        forall|j: int|
                            0 <= j < i ==> #[trigger] out@[j] == (
                                names@[j],
                                descriptions@[j],
                                expected_types@[j],
                            ),
                    decreases names.len() - i,
                {
                    out.push((names[i], descriptions[i], expected_types[i]));
                    i += 1;
                }
                assert(out@ =~= self@);
            },
            _ => {
                assert(out@ =~= self@);
            },
        }
        out
    }
}

} // verus!
