//! What the network database keeps of a peer.

use crate::codec::be::{be32, lemma_be32_round_trip};
use crate::codec::frame::{frames_fit, items_of, join_frames};
use crate::codec::record::{
    decode_field, decode_list, encode_list, fields_of, join, lemma_fields_round_trip,
    lemma_list_round_trip, list_decoded, list_encoded, list_valid, unframe, views,
};
use crate::codec::show::corrupted;
use crate::codec::Codec;
use crate::error::StringErr;
use vstd::prelude::*;
use vstd::string::*;

verus! {

/// A peer's card: who it is and where it can be reached.
///
/// Stored as a record of frames, one for each field. This is the
/// library's own format: what another program has stored in another
/// format cannot be read with it.
#[derive(Clone, Debug, PartialEq, Eq)]
pub struct PeerCardDbV1 {
    pub version: u32,
    pub currency: String,
    pub pubkey: String,
    pub blockstamp: String,
    /// The peer's endpoints, each as the name of an interface, a space and
    /// the address.
    pub endpoints: Vec<String>,
    pub status: String,
    pub signature: String,
}

/// A peer's card in the model: texts as sequences of characters.
pub struct PeerCardView {
    pub version: u32,
    pub currency: Seq<char>,
    pub pubkey: Seq<char>,
    pub blockstamp: Seq<char>,
    pub endpoints: Seq<Seq<char>>,
    pub status: Seq<char>,
    pub signature: Seq<char>,
}

impl View for PeerCardDbV1 {
    type V = PeerCardView;

    open spec fn view(&self) -> PeerCardView {
        PeerCardView {
            version: self.version,
            currency: self.currency@,
            pubkey: self.pubkey@,
            blockstamp: self.blockstamp@,
            endpoints: views(self.endpoints@),
            status: self.status@,
            signature: self.signature@,
        }
    }
}

impl Default for PeerCardDbV1 {
    fn default() -> (card: Self)
        ensures
            card@ == (PeerCardView {
                version: 0,
                currency: Seq::empty(),
                pubkey: Seq::empty(),
                blockstamp: Seq::empty(),
                endpoints: Seq::empty(),
                status: Seq::empty(),
                signature: Seq::empty(),
            }),
    {
        let card = PeerCardDbV1 {
            version: 0,
            currency: String::new(),
            pubkey: String::new(),
            blockstamp: String::new(),
            endpoints: Vec::new(),
            status: String::new(),
            signature: String::new(),
        };
        assert(views(card.endpoints@) =~= Seq::<Seq<char>>::empty());
        card
    }
}

/// The seven fields of a card.
pub open spec fn card_fields(v: PeerCardView) -> Seq<Seq<u8>> {
    seq![
        be32(v.version),
        String::encoded(v.currency),
        String::encoded(v.pubkey),
        String::encoded(v.blockstamp),
        list_encoded::<String>(v.endpoints),
        String::encoded(v.status),
        String::encoded(v.signature),
    ]
}

impl Codec for PeerCardDbV1 {
    open spec fn valid(v: PeerCardView) -> bool {
        list_valid::<String>(v.endpoints) && frames_fit(card_fields(v))
    }

    open spec fn encoded(v: PeerCardView) -> Seq<u8> {
        join_frames(card_fields(v))
    }

    open spec fn decoded(bytes: Seq<u8>) -> Option<PeerCardView> {
        match fields_of(bytes, 7) {
            Some(f) => match (
                <u32 as Codec>::decoded(f[0]),
                String::decoded(f[1]),
                String::decoded(f[2]),
                String::decoded(f[3]),
                list_decoded::<String>(f[4]),
                String::decoded(f[5]),
                String::decoded(f[6]),
            ) {
                (
                    Some(version),
                    Some(currency),
                    Some(pubkey),
                    Some(blockstamp),
                    Some(endpoints),
                    Some(status),
                    Some(signature),
                ) => Some(
                    PeerCardView {
                        version,
                        currency,
                        pubkey,
                        blockstamp,
                        endpoints,
                        status,
                        signature,
                    },
                ),
                _ => None,
            },
            None => None,
        }
    }

    proof fn lemma_round_trip(v: PeerCardView) {
        lemma_fields_round_trip(card_fields(v));
        lemma_be32_round_trip(v.version);
        String::lemma_round_trip(v.currency);
        String::lemma_round_trip(v.pubkey);
        String::lemma_round_trip(v.blockstamp);
        lemma_list_round_trip::<String>(v.endpoints);
        String::lemma_round_trip(v.status);
        String::lemma_round_trip(v.signature);
    }

    fn as_bytes(&self) -> (bytes: Vec<u8>) {
        let mut fields: Vec<Vec<u8>> = Vec::new();
        fields.push(self.version.as_bytes());
        fields.push(Codec::as_bytes(&self.currency));
        fields.push(Codec::as_bytes(&self.pubkey));
        fields.push(Codec::as_bytes(&self.blockstamp));
        fields.push(encode_list(&self.endpoints));
        fields.push(Codec::as_bytes(&self.status));
        fields.push(Codec::as_bytes(&self.signature));
        assert(items_of(fields@) =~= card_fields(self@));
        join(&fields)
    }

    fn from_bytes(bytes: &[u8]) -> (r: Result<Self, StringErr>) {
        let f = match unframe(bytes, 7) {
            Some(f) => f,
            None => {
                return Err(corrupted("damaged peer card", bytes));
            },
        };
        assert(items_of(f@)[4] == f@[4]@);
        match (
            decode_field::<u32>(&f, 0),
            decode_field::<String>(&f, 1),
            decode_field::<String>(&f, 2),
            decode_field::<String>(&f, 3),
            decode_list::<String>(f[4].as_slice()),
            decode_field::<String>(&f, 5),
            decode_field::<String>(&f, 6),
        ) {
            (
                Some(version),
                Some(currency),
                Some(pubkey),
                Some(blockstamp),
                Some(endpoints),
                Some(status),
                Some(signature),
            ) => Ok(
                PeerCardDbV1 { version, currency, pubkey, blockstamp, endpoints, status, signature },
            ),
            _ => Err(corrupted("damaged peer card", bytes)),
        }
    }
}

} // verus!
