//! The system model: a declarative document naming the full desired set
//! of package providers. When present it is the source of truth for
//! resolution, in place of the installed set.
//!
//! Reading and writing the document itself is an outside collaborator's
//! job; the library works on the loaded value.

use vstd::prelude::*;

verus! {

/// The desired set, as capability tokens (package names are tokens every
/// package exports for itself). The list carries no duplicates.
#[derive(Debug)]
pub struct SystemModel {
    pub packages: Vec<String>,
}

impl View for SystemModel {
    type V = Seq<Seq<char>>;

    open spec fn view(&self) -> Seq<Seq<char>> {
        self.packages.deep_view()
    }
}

impl SystemModel {
    /// An empty model.
    pub fn new() -> (r: SystemModel)
        ensures
            r@.len() == 0,
    {
        let r = SystemModel { packages: Vec::new() };
        proof {
            assert(r@ =~= Seq::<Seq<char>>::empty());
        }
        r
    }

    /// Adds a token unless the model already names it.
    pub fn add_package(&mut self, token: String)
        ensures
            old(self)@.contains(token@) ==> final(self)@ == old(self)@,
            !old(self)@.contains(token@) ==> final(self)@ == old(self)@.push(token@),
    {
        if !crate::package::contains_token(&self.packages, &token) {
            let ghost before = self@;
            self.packages.push(token);
            proof {
                assert(self@ =~= before.push(self.packages@.last()@));
            }
        }
    }

    /// Does the model name `token`?
    pub fn contains(&self, token: &String) -> (r: bool)
        ensures
            r == self@.contains(token@),
    {
        crate::package::contains_token(&self.packages, token)
    }
}

} // verus!
