//! Reading the endpoints of the known peers.

use crate::backend::{lemma_scan_unique, scan_of, Backend, BoundView, RawEntry};
use crate::codec::record::{frames_decoded, views};
use crate::codec::Codec;

use crate::collection::{Collection, KeyBound};
use crate::error::{KvError, KvResult};
use crate::values::peer_card::{PeerCardDbV1, PeerCardView};
use crate::values::tx_db::PublicKey;
use vstd::prelude::*;
use vstd::string::*;

verus! {

/// The network database: the cards of the known peers under their keys.
pub struct DunpV1Db<B: Backend> {
    pub peers_old: Collection<B, PublicKey, PeerCardDbV1>,
}

impl<B: Backend> DunpV1Db<B> {
    /// A network database over one engine, without subscribers.
    pub fn new(peers_old: B) -> (db: Self)
        ensures
            db.peers_old.raw() == peers_old.entries(),
            db.peers_old.reliable() == peers_old.reliable(),
            db.peers_old.hub().boxes.len() == 0,
            db.peers_old.hub().open,
    {
        DunpV1Db { peers_old: Collection::new(peers_old) }
    }
}

/// The reader of the databases.
#[derive(Clone, Copy, Debug, Default)]
pub struct DbsReaderImpl {}

/// The endpoint belongs to one of the interfaces `apis`: it begins with
/// the name of one of them and a space.
pub open spec fn is_wanted(endpoint: Seq<char>, apis: Seq<Seq<char>>) -> bool {
    exists|i: int| 0 <= i < apis.len() && (#[trigger] apis[i] + seq![' ']).is_prefix_of(endpoint)
}

/// Those of `endpoints` that belong to one of `apis`, in their order.
pub open spec fn wanted_of(endpoints: Seq<Seq<char>>, apis: Seq<Seq<char>>) -> Seq<Seq<char>>
    decreases endpoints.len(),
{
    if endpoints.len() == 0 {
        Seq::empty()
    } else {
        let before = wanted_of(endpoints.drop_last(), apis);
        if is_wanted(endpoints.last(), apis) {
            before.push(endpoints.last())
        } else {
            before
        }
    }
}

/// The endpoints of `peers` that belong to one of `apis`: peer by peer,
/// and for each peer in the order of its card.
pub open spec fn wanted_in(peers: Seq<PeerCardView>, apis: Seq<Seq<char>>) -> Seq<Seq<char>>
    decreases peers.len(),
{
    if peers.len() == 0 {
        Seq::empty()
    } else {
        wanted_in(peers.drop_last(), apis) + wanted_of(peers.last().endpoints, apis)
    }
}

/// The stored values of a run of entries.
pub open spec fn values_of(entries: Seq<RawEntry>) -> Seq<Seq<u8>> {
    entries.map_values(|e: RawEntry| e.1)
}

/// What `endpoints_` gives for the interfaces `apis` when `entries` lists
/// what the peers' collection holds in ascending order of the keys: the
/// wanted endpoints of all peers, or `None` where a card is damaged.
pub open spec fn endpoints_found(entries: Seq<RawEntry>, apis: Seq<Seq<char>>) -> Option<
    Seq<Seq<char>>,
> {
    match frames_decoded::<PeerCardDbV1>(values_of(entries)) {
        Some(peers) => Some(wanted_in(peers, apis)),
        None => None,
    }
}

/// `str::starts_with`: whether `text` begins with `prefix`.
#[verifier::external_body]
fn begins_with(text: &str, prefix: &str) -> (b: bool)
    ensures
        b == prefix@.is_prefix_of(text@),
{
    text.starts_with(prefix)
}

/// Whether `endpoint` begins with one of `prefixes`.
fn begins_with_any(endpoint: &String, prefixes: &Vec<String>) -> (b: bool)
    ensures
        b == exists|i: int|
            0 <= i < prefixes@.len() && (#[trigger] prefixes@[i])@.is_prefix_of(endpoint@),
{
    let mut i: usize = 0;
    while i < prefixes.len()
        invariant
            i <= prefixes@.len(),
            forall|j: int| 0 <= j < i ==> !(#[trigger] prefixes@[j])@.is_prefix_of(endpoint@),
        decreases prefixes.len() - i,
    {
        if begins_with(endpoint.as_str(), prefixes[i].as_str()) {
            return true;
        }
        i = i + 1;
    }
    false
}

impl DbsReaderImpl {
    /// A reader of databases that are kept in memory.
    pub fn mem() -> Self {
        DbsReaderImpl {  }
    }

    /// The endpoints of the known peers that belong to one of the
    /// interfaces `api_list`: peer by peer in ascending order of the
    /// peers' keys, and for each peer in the order of its card. With no
    /// interface named, nothing is read and nothing is found.
    pub fn endpoints_<B: Backend>(&self, network_db: &DunpV1Db<B>, api_list: Vec<String>) -> (r:
        KvResult<Vec<String>>)
        ensures
            api_list@.len() == 0 ==> (r matches Ok(found) && found@.len() == 0),
            api_list@.len() > 0 ==> match r {
                Err(KvError::BackendError(_)) => !network_db.peers_old.reliable(),
                Ok(found) => endpoints_found(
                    scan_of(
                        network_db.peers_old.raw(),
                        BoundView::Unbounded,
                        BoundView::Unbounded,
                    ),
                    views(api_list@),
                ) == Some(views(found@)),
                Err(e) => e is DeserError && endpoints_found(
                    scan_of(
                        network_db.peers_old.raw(),
                        BoundView::Unbounded,
                        BoundView::Unbounded,
                    ),
                    views(api_list@),
                ) is None,
            },
    {
        if api_list.len() == 0 {
            return Ok(Vec::new());
        }
        let ghost apis = views(api_list@);
        let mut prefixes: Vec<String> = Vec::new();
        let mut a: usize = 0;
        while a < api_list.len()
            invariant
                a <= api_list@.len(),
                apis == views(api_list@),
                prefixes@.len() == a,
                forall|j: int| 0 <= j < a ==> (#[trigger] prefixes@[j])@ == apis[j] + seq![' '],
            decreases api_list.len() - a,
        {
            proof {
                reveal_strlit(" ");
                assert(" "@ =~= seq![' ']);
                assert(apis[a as int] == api_list@[a as int]@);
            }
            let mut prefix = api_list[a].clone();
            prefix.append(" ");
            prefixes.push(prefix);
            a = a + 1;
        }
        let no_limit: KeyBound<PublicKey> = KeyBound::Unbounded;
        let it = match network_db.peers_old.iter(&no_limit, &no_limit) {
            Ok(it) => it,
            Err(e) => {
                return Err(e);
            },
        };
        let ghost entries = it.remaining();
        proof {
            lemma_scan_unique(
                entries,
                network_db.peers_old.raw(),
                BoundView::Unbounded,
                BoundView::Unbounded,
            );
        }
        let peers = match it.values().collect() {
            Ok(peers) => peers,
            Err(e) => {
                proof {
                    if !(e is BackendError) {
                        let i = choose|i: int|
                            0 <= i < entries.len() && crate::iter::value_read::<PeerCardDbV1>(
                                #[trigger] entries[i],
                                Err(e),
                            );
                        assert(values_of(entries)[i] == entries[i].1);
                        assert(endpoints_found(entries, apis) is None);
                    }
                }
                return Err(e);
            },
        };
        let ghost cards = views(peers@);
        proof {
            assert forall|i: int| 0 <= i < entries.len() implies PeerCardDbV1::decoded(
                #[trigger] values_of(entries)[i],
            ) == Some(cards[i]) by {
                assert(crate::iter::value_read::<PeerCardDbV1>(entries[i], Ok(peers@[i])));
            }
            assert(values_of(entries).map_values(|f: Seq<u8>| PeerCardDbV1::decoded(f).unwrap())
                =~= cards);
            assert(endpoints_found(entries, apis) == Some(wanted_in(cards, apis)));
        }
        let mut found: Vec<String> = Vec::new();
        let mut p: usize = 0;
        assert(cards.subrange(0, 0) =~= Seq::<PeerCardView>::empty());
        assert(views(found@) =~= Seq::<Seq<char>>::empty());
        while p < peers.len()
            invariant
                p <= peers@.len(),
                cards == views(peers@),
                apis == views(api_list@),
                prefixes@.len() == apis.len(),
                forall|j: int|
                    0 <= j < prefixes@.len() ==> (#[trigger] prefixes@[j])@ == apis[j] + seq![' '],
                views(found@) == wanted_in(cards.subrange(0, p as int), apis),
            decreases peers.len() - p,
        {
            let ghost before = views(found@);
            let ghost card = cards[p as int];
            assert(card == peers@[p as int]@);
            let mut e: usize = 0;
            assert(card.endpoints.subrange(0, 0) =~= Seq::<Seq<char>>::empty());
            assert(before + Seq::<Seq<char>>::empty() =~= before);
            while e < peers[p].endpoints.len()
                invariant
                    p < peers@.len(),
                    card == peers@[p as int]@,
                    e <= card.endpoints.len(),
                    apis == views(api_list@),
                    prefixes@.len() == apis.len(),
                    forall|j: int|
                        0 <= j < prefixes@.len() ==> (#[trigger] prefixes@[j])@ == apis[j]
                            + seq![' '],
                    views(found@) == before + wanted_of(card.endpoints.subrange(0, e as int), apis),
                decreases peers[p as int].endpoints.len() - e,
            {
                let endpoint = &peers[p].endpoints[e];
                let ghost upto = card.endpoints.subrange(0, e as int + 1);
                proof {
                    assert(upto.drop_last() =~= card.endpoints.subrange(0, e as int));
                    assert(upto.last() == endpoint@);
                    if is_wanted(endpoint@, apis) {
                        let i = choose|i: int|
                            0 <= i < apis.len() && (#[trigger] apis[i] + seq![' ']).is_prefix_of(
                                endpoint@,
                            );
                        assert(prefixes@[i]@.is_prefix_of(endpoint@));
                    }
                }
                if begins_with_any(endpoint, &prefixes) {
                    proof {
                        let i = choose|i: int|
                            0 <= i < prefixes@.len() && (#[trigger] prefixes@[i])@.is_prefix_of(
                                endpoint@,
                            );
                        assert((apis[i] + seq![' ']).is_prefix_of(endpoint@));
                        assert(is_wanted(endpoint@, apis));
                        let prior = wanted_of(upto.drop_last(), apis);
                        assert(wanted_of(upto, apis) == prior.push(endpoint@));
                        assert(views(found@.push(*endpoint)) =~= views(found@).push(endpoint@));
                        assert((before + prior).push(endpoint@) =~= before + prior.push(endpoint@));
                    }
                    found.push(endpoint.clone());
                }
                e = e + 1;
            }
            proof {
                assert(card.endpoints.subrange(0, e as int) =~= card.endpoints);
                let next = cards.subrange(0, p as int + 1);
                assert(next.drop_last() =~= cards.subrange(0, p as int));
                assert(next.last() == card);
            }
            p = p + 1;
        }
        assert(cards.subrange(0, p as int) =~= cards);
        Ok(found)
    }
}

} // verus!
