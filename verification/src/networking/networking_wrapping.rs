use vstd::prelude::*;

verus! {

/// A command for the server, serialized, with its ID at the end.
pub struct SerializedServerCommand {
    pub data: Vec<u8>,
}

/// A command for a client, serialized, with its ID at the end.
pub struct SerializedClientCommand {
    pub data: Vec<u8>,
}

impl SerializedServerCommand {
    pub fn new(data: Vec<u8>) -> (c: Self)
        ensures
            c.data@ == data@,
    {
        SerializedServerCommand { data }
    }
}

impl SerializedClientCommand {
    pub fn new(data: Vec<u8>) -> (c: Self)
        ensures
            c.data@ == data@,
    {
        SerializedClientCommand { data }
    }
}

/// Gives up a serialized command for its bytes.
pub trait SerializedWrapperDecay: Sized {
    spec fn spec_bytes(&self) -> Seq<u8>;

    fn decay(self) -> (bytes: Vec<u8>)
        ensures
            bytes@ == self.spec_bytes(),
    ;
}

impl SerializedWrapperDecay for SerializedServerCommand {
    open spec fn spec_bytes(&self) -> Seq<u8> {
        self.data@
    }

    fn decay(self) -> (bytes: Vec<u8>) {
        self.data
    }
}

impl SerializedWrapperDecay for SerializedClientCommand {
    open spec fn spec_bytes(&self) -> Seq<u8> {
        self.data@
    }

    fn decay(self) -> (bytes: Vec<u8>) {
        self.data
    }
}

/// Gives up a list of serialized commands for their bytes.
pub trait VecSerializedWrapperDecay: Sized {
    spec fn spec_all_bytes(&self) -> Seq<Seq<u8>>;

    fn decay(self) -> (all: Vec<Vec<u8>>)
        ensures
            all@.len() == self.spec_all_bytes().len(),
            forall|i: int| 0 <= i < all@.len() ==> #[trigger] all@[i]@ == self.spec_all_bytes()[i],
    ;
}

impl<T: SerializedWrapperDecay> VecSerializedWrapperDecay for Vec<T> {
    open spec fn spec_all_bytes(&self) -> Seq<Seq<u8>> {
        self@.map_values(|c: T| c.spec_bytes())
    }

    fn decay(self) -> (all: Vec<Vec<u8>>) {
        let ghost orig = self.spec_all_bytes();
        let mut all: Vec<Vec<u8>> = Vec::new();
        let mut rest = self;
        while rest.len() > 0
            invariant
                all@.len() + rest@.len() == orig.len(),
                forall|i: int| 0 <= i < all@.len() ==> #[trigger] all@[i]@ == orig[i],
                forall|i: int| 0 <= i < rest@.len() ==> #[trigger] rest@[i].spec_bytes() == orig[all@.len() + i],
            decreases rest@.len(),
        {
            let ghost before = rest@;
            let c = rest.remove(0);
            proof {
                assert(c == before[0]);
                assert(c.spec_bytes() == orig[all@.len() as int]);
                assert forall|i: int| 0 <= i < rest@.len() implies #[trigger] rest@[i].spec_bytes() == orig[all@.len()
                    + 1 + i] by {
                    assert(rest@[i] == before[i + 1]);
                }
            }
            all.push(c.decay());
        }
        all
    }
}

} // verus!
