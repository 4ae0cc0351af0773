//! The catalogue of communication tests that the agent can run.

use vstd::prelude::*;

verus! {

/// A way of talking to the clients.
#[derive(Debug, Clone, Copy, PartialEq, Eq, Structural)]
pub enum CommTests {
    AsyncMutex,
    FuturesUnordered,
    MpscChannel,
    SelectChannel,
    SelectTokio,
    Sync,
    TokioSpawn,
    UnixSelect,
}

/// The name a test is shown by.
pub open spec fn test_name(t: CommTests) -> Seq<char> {
    match t {
        CommTests::AsyncMutex => "AsyncMutex"@,
        CommTests::FuturesUnordered => "FuturesUnordered"@,
        CommTests::MpscChannel => "MpscChannel"@,
        CommTests::SelectChannel => "SelectChannel"@,
        CommTests::SelectTokio => "SelectTokio"@,
        CommTests::Sync => "Sync"@,
        CommTests::TokioSpawn => "TokioSpawn"@,
        CommTests::UnixSelect => "UnixSelect"@,
    }
}

impl CommTests {
    /// The name the test is shown by: the variant's own name.
    pub fn name(&self) -> (s: &'static str)
        ensures
            s@ == test_name(*self),
    {
        match self {
            CommTests::AsyncMutex => "AsyncMutex",
            CommTests::FuturesUnordered => "FuturesUnordered",
            CommTests::MpscChannel => "MpscChannel",
            CommTests::SelectChannel => "SelectChannel",
            CommTests::SelectTokio => "SelectTokio",
            CommTests::Sync => "Sync",
            CommTests::TokioSpawn => "TokioSpawn",
            CommTests::UnixSelect => "UnixSelect",
        }
    }
}

} // verus!
