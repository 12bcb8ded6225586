use vstd::prelude::*;

verus! {

/// The append-only message log the states report to. Drawing it belongs to
/// the terminal layer; the core only appends.
pub struct Console {
    pub messages: Vec<String>,
}

impl View for Console {
    type V = Seq<Seq<char>>;

    open spec fn view(&self) -> Seq<Seq<char>> {
        self.messages@.map_values(|m: String| m@)
    }
}

impl Console {
    pub fn new() -> (c: Console)
        ensures
            c@ =~= Seq::<Seq<char>>::empty(),
    {
        let c = Console { messages: Vec::new() };
        proof {
            assert(c@ =~= Seq::<Seq<char>>::empty());
        }
        c
    }

    /// Append one message to the log.
    pub fn write(&mut self, message: String)
        ensures
            final(self)@ =~= old(self)@.push(message@),
    {
        self.messages.push(message);
        proof {
            assert(self@ =~= old(self)@.push(message@));
        }
    }
}

} // verus!
