//! The registry of the server process that the launcher started, and of the
//! sessions it knows, one per origin.
use vstd::prelude::*;
use crate::error::LauncherError;
use crate::session::{Server, ServerView};
use crate::status::{listing_of, parse_output, views};

verus! {

/// The tracked process after `start` hands over `child`: always `child`, the
/// earlier one being forgotten.
pub open spec fn started<H>(tracked_child: Option<H>, child: H) -> Option<H> {
    Some(child)
}

/// The tracked process after `stop` or `kill`: none.
pub open spec fn stopped<H>(tracked_child: Option<H>) -> Option<H> {
    None
}

/// A second `start` leaves one tracked process, the second; `stop` on an idle
/// registry leaves it idle.
pub proof fn lemma_registry_transitions<H>(tracked_child: Option<H>, first: H, second: H)
    ensures
        started(started(tracked_child, first), second) == Some(second),
        stopped(None::<H>) == None::<H>,
        stopped(started(tracked_child, first)) == None::<H>,
{
}

/// The known sessions `list` once `s` is recorded: `s` replaces the session
/// of the same origin, or comes last where there is none.
pub open spec fn register_spec(list: Seq<ServerView>, s: ServerView) -> Seq<ServerView> {
    if exists|k: int| 0 <= k < list.len() && #[trigger] list[k].origin == s.origin {
        let k = choose|k: int| 0 <= k < list.len() && #[trigger] list[k].origin == s.origin;
        list.update(k, s)
    } else {
        list.push(s)
    }
}

/// The known sessions `list` once each of `ss` is recorded, in order.
pub open spec fn register_all_spec(list: Seq<ServerView>, ss: Seq<ServerView>) -> Seq<ServerView>
    decreases ss.len(),
{
    if ss.len() == 0 {
        list
    } else {
        register_spec(register_all_spec(list, ss.drop_last()), ss.last())
    }
}

/// Holds at most one running server process, of handle type `H`, and the
/// known sessions.
pub struct ServerManger<H> {
    /// The process started last, if it has not been stopped.
    pub child: Option<H>,
    /// The known sessions, at most one per origin, in order of first registration.
    pub servers: Vec<Server>,
}

/// Whether the session `s` has the same origin as `t`.
pub fn same_origin(s: &Server, t: &Server) -> (r: bool)
    ensures
        r == (s@.origin == t@.origin),
{
    match (&s.origin, &t.origin) {
        (Some(a), Some(b)) => {
            let eq = *a == *b;
            eq
        },
        (None, None) => true,
        _ => false,
    }
}

impl<H> ServerManger<H> {
    /// No two known sessions share an origin.
    pub open spec fn wf(&self) -> bool {
        forall|i: int, j: int|
            0 <= i < j < self.servers@.len() ==> #[trigger] self.servers@[i]@.origin
                != #[trigger] self.servers@[j]@.origin
    }

    /// Whether no two known sessions share an origin.
    pub fn origins_distinct(&self) -> (r: bool)
        ensures
            r == self.wf(),
    {
        let n = self.servers.len();
        let mut i: usize = 0;
        while i < n
            invariant
                n == self.servers@.len(),
                0 <= i <= n,
                forall|a: int, b: int|
                    0 <= a < b < n && a < i ==> #[trigger] self.servers@[a]@.origin
                        != #[trigger] self.servers@[b]@.origin,
            decreases n - i,
        {
            let mut j: usize = i + 1;
            while j < n
                invariant
                    n == self.servers@.len(),
                    0 <= i < n,
                    i + 1 <= j <= n,
                    forall|a: int, b: int|
                        0 <= a < b < n && a < i ==> #[trigger] self.servers@[a]@.origin
                            != #[trigger] self.servers@[b]@.origin,
                    forall|b: int|
                        i < b < j ==> self.servers@[i as int]@.origin != #[trigger] self.servers@[b]@.origin,
                decreases n - j,
            {
                if same_origin(&self.servers[i], &self.servers[j]) {
                    return false;
                }
                j = j + 1;
            }
            i = i + 1;
        }
        true
    }

    pub fn new() -> (r: Self)
        ensures
            r.wf(),
            r.child is None,
            r.servers@.len() == 0,
    {
        ServerManger { child: None, servers: Vec::new() }
    }

    /// Tracks `child` in place of whatever was tracked before.
    pub fn start(&mut self, child: H)
        ensures
            final(self).child == started(old(self).child, child),
            final(self).servers@ == old(self).servers@,
    {
        self.child = Some(child);
    }

    /// Stops tracking the running process, and hands it back for termination.
    pub fn kill(&mut self) -> (r: Option<H>)
        ensures
            r == old(self).child,
            final(self).child == stopped(old(self).child),
            final(self).servers@ == old(self).servers@,
    {
        self.child.take()
    }

    /// The same as `kill`.
    pub fn stop(&mut self) -> (r: Option<H>)
        ensures
            r == old(self).child,
            final(self).child == stopped(old(self).child),
            final(self).servers@ == old(self).servers@,
    {
        self.child.take()
    }

    /// Records `server`: it replaces the known session of the same origin, or
    /// comes last where there is none.
    pub fn register(&mut self, server: Server)
        requires
            old(self).wf(),
        ensures
            final(self).wf(),
            final(self).child == old(self).child,
            views(final(self).servers@) == register_spec(views(old(self).servers@), server@),
    {
        let mut i: usize = 0;
        while i < self.servers.len()
            invariant
                0 <= i <= self.servers.len(),
                self.servers@ == old(self).servers@,
                self.child == old(self).child,
                self.wf(),
                forall|k: int| 0 <= k < i ==> self.servers@[k]@.origin != server@.origin,
            decreases self.servers.len() - i,
        {
            if same_origin(&self.servers[i], &server) {
                let ghost before = self.servers@;
                self.servers.set(i, server);
                assert(self.servers@ == before.update(i as int, server));
                assert forall|a: int, b: int| 0 <= a < b < self.servers@.len() implies
                    #[trigger] self.servers@[a]@.origin != #[trigger] self.servers@[b]@.origin by {
                    assert(before[a]@.origin != before[b]@.origin);
                }
                proof {
                    let list = views(before);
                    assert(list[i as int].origin == server@.origin);
                    let k = choose|k: int| 0 <= k < list.len() && #[trigger] list[k].origin == server@.origin;
                    if k != i {
                        if k < i {
                            assert(before[k]@.origin != before[i as int]@.origin);
                        } else {
                            assert(before[i as int]@.origin != before[k]@.origin);
                        }
                    }
                    assert(views(self.servers@) =~= list.update(i as int, server@));
                }
                return;
            }
            i = i + 1;
        }
        let ghost before = self.servers@;
        self.servers.push(server);
        proof {
            let list = views(before);
            assert forall|k: int| 0 <= k < list.len() implies #[trigger] list[k].origin != server@.origin by {
                assert(before[k]@.origin != server@.origin);
            }
            assert(views(self.servers@) =~= list.push(server@));
        }
        assert forall|a: int, b: int| 0 <= a < b < self.servers@.len() implies
            #[trigger] self.servers@[a]@.origin != #[trigger] self.servers@[b]@.origin by {
            if b < before.len() {
                assert(before[a]@.origin != before[b]@.origin);
            }
        }
    }

    /// Records each of `servers`, in order.
    pub fn register_all(&mut self, servers: &Vec<Server>)
        requires
            old(self).wf(),
        ensures
            final(self).wf(),
            final(self).child == old(self).child,
            views(final(self).servers@) == register_all_spec(
                views(old(self).servers@),
                views(servers@),
            ),
    {
        let mut i: usize = 0;
        while i < servers.len()
            invariant
                0 <= i <= servers.len(),
                self.wf(),
                self.child == old(self).child,
                views(self.servers@) == register_all_spec(
                    views(old(self).servers@),
                    views(servers@).take(i as int),
                ),
            decreases servers.len() - i,
        {
            assert(views(servers@).take(i + 1).drop_last() =~= views(servers@).take(i as int));
            self.register(servers[i].copy());
            i = i + 1;
        }
        assert(views(servers@).take(i as int) =~= views(servers@));
    }

    /// Reads the status listing's two captured streams, standard output first,
    /// records every session they hold, and returns them in that order. Where
    /// either stream cannot be read, nothing is recorded and the error is
    /// returned, the one of standard output first.
    pub fn record_running_servers(&mut self, stdout: Vec<u8>, stderr: Vec<u8>) -> (r: Result<
        Vec<Server>,
        LauncherError,
    >)
        requires
            old(self).wf(),
        ensures
            final(self).wf(),
            final(self).child == old(self).child,
            match (listing_of(stdout@), listing_of(stderr@)) {
                (Ok(a), Ok(b)) => r matches Ok(v) && views(v@) == a + b && views(
                    final(self).servers@,
                ) == register_all_spec(views(old(self).servers@), a + b),
                (Err(e), _) => r == Err::<Vec<Server>, LauncherError>(e) && final(self).servers@
                    == old(self).servers@,
                (Ok(_), Err(e)) => r == Err::<Vec<Server>, LauncherError>(e)
                    && final(self).servers@ == old(self).servers@,
            },
    {
        let mut data = match parse_output(stdout) {
            Ok(v) => v,
            Err(e) => return Err(e),
        };
        let mut more = match parse_output(stderr) {
            Ok(v) => v,
            Err(e) => return Err(e),
        };
        let ghost a = data@;
        let ghost b = more@;
        data.append(&mut more);
        assert(views(data@) =~= views(a) + views(b));
        self.register_all(&data);
        Ok(data)
    }
}

} // verus!
