//! The paths under which a running program serves its profiles.

use crate::text::{dec_text, push_dec};
use vstd::prelude::*;
use vstd::string::StringExecFns;

verus! {

/// The kinds of profiles that a running program serves.
#[derive(Clone, Copy, Debug, PartialEq, Eq, Structural, Hash)]
pub enum Profiles {
    Heap,
    Goroutine,
    ThreadCreate,
    Block,
    Mutex,
    /// Taken over a number of seconds.
    Cpu,
    /// Taken over a number of seconds.
    Trace,
}

/// The path of a kind of profile. The two timed kinds carry the number
/// of seconds.
pub open spec fn path_text(kind: Profiles, seconds: u64) -> Seq<char> {
    match kind {
        Profiles::Heap => "/debug/pprof/heap"@,
        Profiles::Goroutine => "/debug/pprof/goroutine"@,
        Profiles::ThreadCreate => "/debug/pprof/threadcreate"@,
        Profiles::Block => "/debug/pprof/block"@,
        Profiles::Mutex => "/debug/pprof/mutex"@,
        Profiles::Cpu => "/debug/pprof/profile?seconds="@ + dec_text(seconds as int),
        Profiles::Trace => "/debug/pprof/trace?seconds="@ + dec_text(seconds as int),
    }
}

/// The path of a kind of profile.
pub fn path_of(kind: Profiles, seconds: u64) -> (r: String)
    ensures
        r@ == path_text(kind, seconds),
{
    match kind {
        Profiles::Heap => String::from_str("/debug/pprof/heap"),
        Profiles::Goroutine => String::from_str("/debug/pprof/goroutine"),
        Profiles::ThreadCreate => String::from_str("/debug/pprof/threadcreate"),
        Profiles::Block => String::from_str("/debug/pprof/block"),
        Profiles::Mutex => String::from_str("/debug/pprof/mutex"),
        Profiles::Cpu => {
            let mut s = String::from_str("/debug/pprof/profile?seconds=");
            push_dec(&mut s, seconds);
            s
        },
        Profiles::Trace => {
            let mut s = String::from_str("/debug/pprof/trace?seconds=");
            push_dec(&mut s, seconds);
            s
        },
    }
}

/// The paths of one program, each with its kind.
#[derive(Debug, PartialEq, Eq)]
pub struct Server {
    pub paths: Vec<(Profiles, String)>,
}

/// The paths of a server as mathematics.
pub open spec fn paths_view(paths: Seq<(Profiles, String)>) -> Seq<(Profiles, Seq<char>)> {
    paths.map_values(|e: (Profiles, String)| (e.0, e.1@))
}

impl View for Server {
    type V = Seq<(Profiles, Seq<char>)>;

    open spec fn view(&self) -> Seq<(Profiles, Seq<char>)> {
        paths_view(self.paths@)
    }
}

impl Server {
    /// The paths of the two timed kinds of profiles, taken over
    /// `seconds` seconds.
    pub fn new_timed_profiles(seconds: u64) -> (r: Server)
        ensures
            r@ == seq![
                (Profiles::Cpu, path_text(Profiles::Cpu, seconds)),
                (Profiles::Trace, path_text(Profiles::Trace, seconds)),
            ],
    {
        let mut paths: Vec<(Profiles, String)> = Vec::new();
        paths.push((Profiles::Cpu, path_of(Profiles::Cpu, seconds)));
        paths.push((Profiles::Trace, path_of(Profiles::Trace, seconds)));
        let r = Server { paths };
        assert(r@ =~= seq![
            (Profiles::Cpu, path_text(Profiles::Cpu, seconds)),
            (Profiles::Trace, path_text(Profiles::Trace, seconds)),
        ]);
        r
    }

    /// The paths of the five kinds of profiles that are not timed.
    pub fn new(_name: &str) -> (r: Server)
        ensures
            r@ == seq![
                (Profiles::Heap, path_text(Profiles::Heap, 0)),
                (Profiles::Goroutine, path_text(Profiles::Goroutine, 0)),
                (Profiles::ThreadCreate, path_text(Profiles::ThreadCreate, 0)),
                (Profiles::Block, path_text(Profiles::Block, 0)),
                (Profiles::Mutex, path_text(Profiles::Mutex, 0)),
            ],
    {
        let mut paths: Vec<(Profiles, String)> = Vec::new();
        paths.push((Profiles::Heap, path_of(Profiles::Heap, 0)));
        paths.push((Profiles::Goroutine, path_of(Profiles::Goroutine, 0)));
        paths.push((Profiles::ThreadCreate, path_of(Profiles::ThreadCreate, 0)));
        paths.push((Profiles::Block, path_of(Profiles::Block, 0)));
        paths.push((Profiles::Mutex, path_of(Profiles::Mutex, 0)));
        let r = Server { paths };
        assert(r@ =~= seq![
            (Profiles::Heap, path_text(Profiles::Heap, 0)),
            (Profiles::Goroutine, path_text(Profiles::Goroutine, 0)),
            (Profiles::ThreadCreate, path_text(Profiles::ThreadCreate, 0)),
            (Profiles::Block, path_text(Profiles::Block, 0)),
            (Profiles::Mutex, path_text(Profiles::Mutex, 0)),
        ]);
        r
    }
}

} // verus!
