//! Links: exclusive gates joining two hosts, one gate id on each side.

use vstd::prelude::*;

verus! {

/// The model of a link: a gate id and the host it leads to, on each
/// side, and whether someone is in transit this cycle.
#[verifier::ext_equal]
pub struct LinkView {
    pub lhs_id: Seq<char>,
    pub lhs_host: int,
    pub rhs_id: Seq<char>,
    pub rhs_host: int,
    pub occupied: bool,
}

/// An exclusive gate between two hosts, named by index in the world's
/// host list. Each gate id leads to the host stored beside it. While
/// `occupied`, nobody else may traverse in either direction; the driver
/// clears it at the end of the cycle.
#[derive(Debug)]
pub struct Link {
    pub(crate) lhs_id: String,
    pub(crate) lhs_host: usize,
    pub(crate) rhs_id: String,
    pub(crate) rhs_host: usize,
    pub occupied: bool,
}

impl View for Link {
    type V = LinkView;

    closed spec fn view(&self) -> LinkView {
        LinkView {
            lhs_id: self.lhs_id@,
            lhs_host: self.lhs_host as int,
            rhs_id: self.rhs_id@,
            rhs_host: self.rhs_host as int,
            occupied: self.occupied,
        }
    }
}

/// Which host a gate id of this link leads to.
pub open spec fn link_destination(l: LinkView, gate_id: Seq<char>) -> Option<int> {
    if l.lhs_id == gate_id {
        Some(l.lhs_host)
    } else if l.rhs_id == gate_id {
        Some(l.rhs_host)
    } else {
        None
    }
}

impl Link {
    /// A free link whose gate ids lead to the given hosts.
    pub fn new(lhs_id: &str, lhs_host: usize, rhs_id: &str, rhs_host: usize) -> (l: Self)
        ensures
            l@ == (LinkView {
                lhs_id: lhs_id@,
                lhs_host: lhs_host as int,
                rhs_id: rhs_id@,
                rhs_host: rhs_host as int,
                occupied: false,
            }),
    {
        Link {
            lhs_id: lhs_id.to_owned(),
            lhs_host,
            rhs_id: rhs_id.to_owned(),
            rhs_host,
            occupied: false,
        }
    }

    /// The host the given gate id leads to, if it is one of this link's
    /// two gates.
    pub fn destination(&self, gate_id: &str) -> (r: Option<usize>)
        ensures
            match r {
                Some(h) => link_destination(self@, gate_id@) == Some(h as int),
                None => link_destination(self@, gate_id@) is None,
            },
    {
        if crate::text::str_eq(self.lhs_id.as_str(), gate_id) {
            Some(self.lhs_host)
        } else if crate::text::str_eq(self.rhs_id.as_str(), gate_id) {
            Some(self.rhs_host)
        } else {
            None
        }
    }

    /// Whether someone is in transit through this link.
    pub fn is_occupied(&self) -> (r: bool)
        ensures
            r == self@.occupied,
    {
        self.occupied
    }

    /// Marks the link as in use for the rest of the cycle.
    pub fn occupy(&mut self)
        ensures
            final(self)@ == (LinkView { occupied: true, ..old(self)@ }),
    {
        self.occupied = true;
    }

    /// Frees the link; the driver calls this at the end of a cycle.
    pub fn release(&mut self)
        ensures
            final(self)@ == (LinkView { occupied: false, ..old(self)@ }),
    {
        self.occupied = false;
    }
}

} // verus!
