use vstd::prelude::*;

use crate::error::Tcp2UdpError;

verus! {

/// The next step in bringing up the listener set.
#[derive(Debug, Clone, Copy, PartialEq, Eq, Structural)]
pub enum StartupStep {
    /// Bind and listen on the listen address with this index.
    Bind(usize),
    /// Every listener is bound: start accepting on all of them.
    Serve,
    /// Startup fails before any connection is accepted.
    Abort(Tcp2UdpError),
}

/// Whether every listener bound so far succeeded.
pub open spec fn all_bound(bound: Seq<bool>) -> bool {
    forall|i: int| 0 <= i < bound.len() ==> #[trigger] bound[i]
}

/// Decides the next startup step for `n_addrs` configured listen addresses,
/// given the outcomes of the binds made so far, in configuration order.
/// Serving starts only once every address is bound; the first failed bind
/// aborts startup, as does an empty configuration.
pub fn next_startup_step(n_addrs: usize, bound: &Vec<bool>) -> (r: StartupStep)
    ensures
        n_addrs == 0 ==> r == StartupStep::Abort(Tcp2UdpError::NoTcpListenAddrs),
        n_addrs > 0 && all_bound(bound@) && bound@.len() < n_addrs ==> r == StartupStep::Bind(
            bound@.len() as usize,
        ),
        n_addrs > 0 && all_bound(bound@) && bound@.len() >= n_addrs ==> r == StartupStep::Serve,
        n_addrs > 0 && !all_bound(bound@) ==> exists|i: int|
            0 <= i < bound@.len() && !bound@[i] && all_bound(bound@.subrange(0, i)) && r
                == StartupStep::Abort(Tcp2UdpError::ListenerBind { index: i as usize }),
        r == StartupStep::Serve ==> n_addrs > 0 && all_bound(bound@) && bound@.len() >= n_addrs,
{
    if n_addrs == 0 {
        return StartupStep::Abort(Tcp2UdpError::NoTcpListenAddrs);
    }
    let mut i: usize = 0;
    while i < bound.len()
        invariant
            n_addrs > 0,
            i <= bound@.len(),
            all_bound(bound@.subrange(0, i as int)),
        decreases bound@.len() - i,
    {
        if !bound[i] {
            assert(!all_bound(bound@));
            return StartupStep::Abort(Tcp2UdpError::ListenerBind { index: i });
        }
        assert(all_bound(bound@.subrange(0, i + 1))) by {
            assert forall|j: int| 0 <= j < i + 1 implies #[trigger] bound@.subrange(0, i + 1)[j] by {
                if j < i {
                    assert(bound@.subrange(0, i + 1)[j] == bound@.subrange(0, i as int)[j]);
                }
            }
        }
        i = i + 1;
    }
    assert(bound@.subrange(0, bound@.len() as int) =~= bound@);
    if bound.len() < n_addrs {
        StartupStep::Bind(bound.len())
    } else {
        StartupStep::Serve
    }
}

} // verus!
