//! A file generator: mints empty files whose ids come from an
//! [`IdGenerator`].

use vstd::prelude::*;

use super::id_generator::{id_generator_wf, last_id, IdGenerator, IdGeneratorView};
use super::File;
use crate::text::dec_digits;

verus! {

/// Mints [`File`]s with fresh ids from the [`IdGenerator`] it owns.
#[derive(Debug, Clone)]
pub struct Generator {
    id_generator: IdGenerator,
}

impl View for Generator {
    type V = IdGeneratorView;

    closed spec fn view(&self) -> IdGeneratorView {
        self.id_generator@
    }
}

impl Generator {
    /// A generator drawing ids from the given source.
    pub fn new(id_generator: IdGenerator) -> (g: Self)
        ensures
            g@ == id_generator@,
    {
        Generator { id_generator }
    }

    /// Mints a new empty file under the next fresh id.
    pub fn generate(&mut self) -> (f: File)
        requires
            id_generator_wf(old(self)@),
            old(self)@.next <= last_id(),
        ensures
            f@.id == dec_digits(old(self)@.next as nat),
            f@.contents == Seq::<crate::value::ValueView>::empty(),
            f@.index == 0,
            final(self)@.avoid == old(self)@.avoid,
            final(self)@.next > old(self)@.next,
            id_generator_wf(final(self)@),
    {
        match self.id_generator.next() {
            Some(id) => File::new(id.as_str()),
            None => vstd::pervasive::unreached(),
        }
    }

    /// Whether a file can still be minted.
    pub fn can_generate(&self) -> (r: bool)
        ensures
            r == (self@.next <= last_id()),
    {
        self.id_generator.can_generate()
    }
}

} // verus!
