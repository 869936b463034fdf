//! Options of a read of the mounts.

use vstd::prelude::*;

verus! {

/// The backend that gathers device information, where several exist.
#[derive(Debug, Clone, Copy, PartialEq, Eq, Structural)]
#[non_exhaustive]
pub enum Strategy {
    /// With this strategy, IOKit is called
    Iokit,
    /// With this strategy, the output of the diskutil command is parsed
    Diskutil,
}

/// Options of a read of the mounts.
#[derive(Debug, Clone, Copy, PartialEq, Eq, Structural)]
pub struct ReadOptions {
    /// whether to read the stats of remote-looking mounts
    pub remote_stats: bool,
    pub strategy: Option<Strategy>,
}

impl Default for ReadOptions {
    fn default() -> (r: Self)
        ensures
            r.remote_stats,
            r.strategy is None,
    {
        Self { remote_stats: true, strategy: None }
    }
}

impl ReadOptions {
    pub fn remote_stats(self, v: bool) -> (r: Self)
        ensures
            r.remote_stats == v,
            r.strategy == self.strategy,
    {
        let mut s = self;
        s.remote_stats = v;
        s
    }

    pub fn strategy(self, v: Strategy) -> (r: Self)
        ensures
            r.remote_stats == self.remote_stats,
            r.strategy == Some(v),
    {
        let mut s = self;
        s.strategy = Some(v);
        s
    }
}

/// A name that is no strategy.
#[derive(Debug, Clone, Copy, PartialEq, Eq, Structural)]
pub struct ParseStrategyError;

impl Strategy {
    /// Reads a strategy name: `iokit` or `diskutil`.
    pub fn from_str(s: &str) -> (r: Result<Self, ParseStrategyError>)
        ensures
            s@ == "iokit"@ ==> r == Ok::<Self, ParseStrategyError>(Strategy::Iokit),
            s@ == "diskutil"@ ==> r == Ok::<Self, ParseStrategyError>(Strategy::Diskutil),
            s@ != "iokit"@ && s@ != "diskutil"@ ==> r == Err::<Self, ParseStrategyError>(
                ParseStrategyError,
            ),
    {
        proof {
            reveal_strlit("iokit");
            reveal_strlit("diskutil");
            assert("iokit"@.len() != "diskutil"@.len());
        }
        let c = crate::text::chars_of(s);
        if crate::text::same_chars(&c, "iokit") {
            Ok(Strategy::Iokit)
        } else if crate::text::same_chars(&c, "diskutil") {
            Ok(Strategy::Diskutil)
        } else {
            Err(ParseStrategyError)
        }
    }
}

impl std::str::FromStr for Strategy {
    type Err = ParseStrategyError;

    fn from_str(s: &str) -> Result<Self, Self::Err> {
        Strategy::from_str(s)
    }
}

} // verus!
