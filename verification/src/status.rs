//! The control-surface status types: the relay's liveness as the front end
//! shows it, and the coin-flip toy endpoint.

use vstd::prelude::*;

verus! {

/// The relay's liveness, as probed over HTTP.
#[derive(Clone, Copy, Debug, PartialEq, Eq, Structural)]
pub enum Server {
    /// The last probe got a well-formed answer.
    Alive,
    /// Probes are not being answered in time.
    Unstable,
    /// The last probe failed.
    Dead,
}

impl Server {
    /// The label the front end shows.
    pub fn to_string(&mut self) -> (r: String)
        ensures
            *final(self) == *old(self),
            *old(self) is Alive ==> r@ =~= seq!['A', 'l', 'i', 'v', 'e'],
            *old(self) is Unstable ==> r@ =~= seq!['U', 'n', 's', 't', 'a', 'b', 'l', 'e'],
            *old(self) is Dead ==> r@ =~= seq!['D', 'e', 'a', 'd'],
    {
        let r = match self {
            Server::Alive => "Alive",
            Server::Unstable => "Unstable",
            Server::Dead => "Dead",
        };
        proof {
            reveal_strlit("Alive");
            reveal_strlit("Unstable");
            reveal_strlit("Dead");
        }
        r.to_owned()
    }
}

/// One coin flip's outcome.
#[derive(Clone, Copy, Debug, PartialEq, Eq, Structural)]
pub enum Coin {
    /// Tails.
    Tail,
    /// Heads.
    Head,
    /// No answer was had.
    Dead,
}

impl Coin {
    /// The label the front end shows.
    pub fn to_string(&mut self) -> (r: String)
        ensures
            *final(self) == *old(self),
            *old(self) is Head ==> r@ =~= seq!['H', 'e', 'a', 'd'],
            *old(self) is Tail ==> r@ =~= seq!['T', 'a', 'i', 'l'],
            *old(self) is Dead ==> r@ =~= seq!['D', 'e', 'a', 'd'],
    {
        let r = match self {
            Coin::Head => "Head",
            Coin::Tail => "Tail",
            Coin::Dead => "Dead",
        };
        proof {
            reveal_strlit("Head");
            reveal_strlit("Tail");
            reveal_strlit("Dead");
        }
        r.to_owned()
    }
}

/// The probed liveness, as the front end holds it.
#[derive(Clone, Copy, Debug, PartialEq, Eq, Structural)]
pub struct ServerStatus {
    /// The liveness last settled on.
    pub status: Server,
}

/// The last coin flip, as the front end holds it.
#[derive(Clone, Copy, Debug, PartialEq, Eq, Structural)]
pub struct CoinStatus {
    /// The outcome last settled on.
    pub status: Coin,
}

/// What one liveness probe settles on: a well-formed answer means alive,
/// anything else means dead.
pub fn server_status_from_probe(answered: bool) -> (s: ServerStatus)
    ensures
        answered ==> s.status is Alive,
        !answered ==> s.status is Dead,
{
    if answered {
        ServerStatus { status: Server::Alive }
    } else {
        ServerStatus { status: Server::Dead }
    }
}

/// The coin status a fair draw stands for.
pub fn coin_status_from_flip(heads: bool) -> (c: CoinStatus)
    ensures
        heads ==> c.status is Head,
        !heads ==> c.status is Tail,
{
    if heads {
        CoinStatus { status: Coin::Head }
    } else {
        CoinStatus { status: Coin::Tail }
    }
}

/// Relies on rand::random::<bool>: a fair draw; nothing is promised of the
/// outcome.
#[verifier::external_body]
fn random_bool() -> bool {
    rand::random::<bool>()
}

/// Flips the coin: a fair draw, reported as heads or tails.
pub fn flip_coin() -> (c: CoinStatus)
    ensures
        c.status is Head || c.status is Tail,
{
    coin_status_from_flip(random_bool())
}

} // verus!
