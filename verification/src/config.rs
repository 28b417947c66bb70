//! The settings of an endpoint.
use vstd::prelude::*;

verus! {

/// The settings of an endpoint.
#[derive(Clone, Copy, Debug, PartialEq, Eq, Structural)]
pub struct Config {
    /// Number of ordered streams.
    pub ordered_streams_size: usize,
    /// Number of sequenced streams.
    pub sequenced_streams_size: usize,
    /// Most fragments that one payload is split into.
    pub max_fragments: u8,
    /// Size of one fragment, in bytes.
    pub fragment_size_bytes: usize,
}

impl Config {
    /// The largest payload, in bytes: the most fragments times the size of one.
    pub open spec fn max_payload(self) -> nat {
        (self.max_fragments * self.fragment_size_bytes) as nat
    }

    /// Number of ordered streams.
    pub fn ordered_streams_size(&self) -> (n: usize)
        ensures
            n == self.ordered_streams_size,
    {
        self.ordered_streams_size
    }

    /// Number of sequenced streams.
    pub fn sequenced_streams_size(&self) -> (n: usize)
        ensures
            n == self.sequenced_streams_size,
    {
        self.sequenced_streams_size
    }

    /// The largest payload, in bytes, held at `usize::MAX`: no payload is longer
    /// than that.
    pub fn max_payload_size_bytes(&self) -> (n: usize)
        ensures
            n == if self.max_payload() <= usize::MAX { self.max_payload() } else { usize::MAX as nat },
    {
        match (self.max_fragments as usize).checked_mul(self.fragment_size_bytes) {
            Some(product) => product,
            None => usize::MAX,
        }
    }

    /// The same settings with another limit of fragments to a payload.
    pub fn with_max_fragments(self, max_fragments: u8) -> (c: Self)
        ensures
            c == (Config { max_fragments, ..self }),
    {
        let mut c = self;
        c.max_fragments = max_fragments;
        c
    }

    /// The same settings with another size of a fragment.
    pub fn with_fragment_size_bytes(self, fragment_size_bytes: usize) -> (c: Self)
        ensures
            c == (Config { fragment_size_bytes, ..self }),
    {
        let mut c = self;
        c.fragment_size_bytes = fragment_size_bytes;
        c
    }

    /// The same settings with another number of ordered streams.
    pub fn with_ordered_streams_size(self, ordered_streams_size: usize) -> (c: Self)
        ensures
            c == (Config { ordered_streams_size, ..self }),
    {
        let mut c = self;
        c.ordered_streams_size = ordered_streams_size;
        c
    }

    /// The same settings with another number of sequenced streams.
    pub fn with_sequenced_streams_size(self, sequenced_streams_size: usize) -> (c: Self)
        ensures
            c == (Config { sequenced_streams_size, ..self }),
    {
        let mut c = self;
        c.sequenced_streams_size = sequenced_streams_size;
        c
    }
}

impl Default for Config {
    /// One ordered and one sequenced stream, and payloads of up to 16 fragments of
    /// 1450 bytes.
    fn default() -> (c: Self)
        ensures
            c == (Config {
                ordered_streams_size: 1,
                sequenced_streams_size: 1,
                max_fragments: 16,
                fragment_size_bytes: 1450,
            }),
    {
        Self {
            ordered_streams_size: 1,
            sequenced_streams_size: 1,
            max_fragments: 16,
            fragment_size_bytes: 1450,
        }
    }
}

} // verus!
