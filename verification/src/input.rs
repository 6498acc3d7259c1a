//! What the user asked for.
use vstd::prelude::*;

use crate::text::strings;

verus! {

/// The options that say what to scan, and how to speak of it.
#[derive(Debug)]
pub struct Opts {
    /// Addresses, networks, host names, or files that list them line by line.
    pub addresses: Vec<String>,
    /// Addresses, networks or host names to leave out.
    pub exclude_addresses: Option<Vec<String>>,
    /// The name servers to ask: a file that lists them, or their addresses between
    /// commas.
    pub resolver: Option<String>,
    /// Whether only what a program reads is printed.
    pub greppable: bool,
    /// Whether what is printed is kept plain, for screen readers.
    pub accessible: bool,
}

/// What an optional list of strings holds; no list holds nothing.
pub open spec fn listed(list: Option<Vec<String>>) -> Seq<Seq<char>> {
    match list {
        Some(list) => strings(list@),
        None => Seq::empty(),
    }
}

impl Opts {
    /// The texts that name what to scan.
    pub open spec fn targets(self) -> Seq<Seq<char>> {
        strings(self.addresses@)
    }

    /// The texts that name what to leave out.
    pub open spec fn exclusions(self) -> Seq<Seq<char>> {
        listed(self.exclude_addresses)
    }
}

impl Default for Opts {
    /// Nothing to scan, nothing to leave out, the system's own resolver, and messages as
    /// usual.
    fn default() -> (opts: Opts)
        ensures
            opts.targets() == Seq::<Seq<char>>::empty(),
            opts.exclude_addresses is None,
            opts.resolver is None,
            !opts.greppable,
            !opts.accessible,
    {
        let addresses: Vec<String> = Vec::new();
        assert(strings(addresses@) =~= Seq::<Seq<char>>::empty());
        Opts {
            addresses,
            exclude_addresses: None,
            resolver: None,
            greppable: false,
            accessible: false,
        }
    }
}

} // verus!
