//! Mirror origination: after the local criome authorizes a head, Spirit
//! hands it to its local router for the peer Spirit, whose apply ingress
//! re-judges and lands it. The octets travel as lowercase hex text, the
//! encoding that the ingress's `CarriedHex::octets` decodes.

use vstd::prelude::*;

use crate::apply_ingress::{hex_digit, hex_octets};
use crate::identifier::string_of_chars;

verus! {

/// The lowercase hex digit of a value below sixteen.
pub open spec fn hex_char(n: u8) -> char {
    match n {
        0 => '0',
        1 => '1',
        2 => '2',
        3 => '3',
        4 => '4',
        5 => '5',
        6 => '6',
        7 => '7',
        8 => '8',
        9 => '9',
        10 => 'a',
        11 => 'b',
        12 => 'c',
        13 => 'd',
        14 => 'e',
        _ => 'f',
    }
}

/// The lowercase hex text of some octets, two digits per octet, high digit
/// first.
pub open spec fn hex_text(octets: Seq<u8>) -> Seq<char>
    decreases octets.len(),
{
    if octets.len() == 0 {
        Seq::empty()
    } else {
        let last = octets.last();
        hex_text(octets.drop_last()).push(hex_char(last / 16)).push(hex_char(last % 16))
    }
}

/// Every hex digit written reads back as its value.
pub proof fn lemma_hex_char_reads_back(n: u8)
    requires
        n < 16,
    ensures
        hex_digit(hex_char(n)) == Some(n),
{
}

/// Hex text is twice as long as its octets.
pub proof fn lemma_hex_text_length(octets: Seq<u8>)
    ensures
        hex_text(octets).len() == 2 * octets.len(),
    decreases octets.len(),
{
    if octets.len() > 0 {
        lemma_hex_text_length(octets.drop_last());
    }
}

/// Decoding the hex text of some octets gives the octets back.
pub proof fn lemma_hex_round_trip(octets: Seq<u8>)
    ensures
        hex_octets(hex_text(octets)) == Some(octets),
    decreases octets.len(),
{
    lemma_hex_text_length(octets);
    if octets.len() > 0 {
        let rest = octets.drop_last();
        let last = octets.last();
        let text = hex_text(octets);
        lemma_hex_round_trip(rest);
        lemma_hex_text_length(rest);
        lemma_hex_char_reads_back(last / 16);
        lemma_hex_char_reads_back(last % 16);
        assert(text.subrange(0, text.len() - 2) =~= hex_text(rest));
        assert(text[text.len() - 2] == hex_char(last / 16));
        assert(text[text.len() - 1] == hex_char(last % 16));
        assert(((last / 16) * 16 + last % 16) as u8 == last);
        assert(rest.push(last) =~= octets);
    } else {
        assert(hex_text(octets) =~= Seq::<char>::empty());
        assert(octets =~= Seq::<u8>::empty());
    }
}

fn hex_char_of(n: u8) -> (r: char)
    requires
        n < 16,
    ensures
        r == hex_char(n),
{
    match n {
        0 => '0',
        1 => '1',
        2 => '2',
        3 => '3',
        4 => '4',
        5 => '5',
        6 => '6',
        7 => '7',
        8 => '8',
        9 => '9',
        10 => 'a',
        11 => 'b',
        12 => 'c',
        13 => 'd',
        14 => 'e',
        _ => 'f',
    }
}

/// Where a head is handed off: the local router's working socket and the
/// router identities of this Spirit and of its peer.
#[derive(Debug)]
pub struct RouterOrigination {
    pub router_socket: String,
    pub source_actor: String,
    pub destination_actor: String,
}

impl RouterOrigination {
    /// Origination against the local router's working socket, from
    /// `source_actor` to the peer `destination_actor`.
    pub fn new(router_socket: String, source_actor: String, destination_actor: String) -> (r: Self)
        ensures
            r.router_socket@ == router_socket@,
            r.source_actor@ == source_actor@,
            r.destination_actor@ == destination_actor@,
    {
        RouterOrigination { router_socket, source_actor, destination_actor }
    }

    /// The configured router working socket.
    pub fn router_socket(&self) -> (r: &String)
        ensures
            r == &self.router_socket,
    {
        &self.router_socket
    }

    /// The lowercase hex text of `octets`, the carriage of a head entry or
    /// of its evidence: two digits per octet, high digit first. Decoding it
    /// gives the octets back.
    pub fn to_hex(octets: &Vec<u8>) -> (r: String)
        ensures
            r@ == hex_text(octets@),
            hex_octets(r@) == Some(octets@),
    {
        let mut chars: Vec<char> = Vec::new();
        let mut i: usize = 0;
        assert(octets@.subrange(0, 0) =~= Seq::<u8>::empty());
        while i < octets.len()
            invariant
                i <= octets.len(),
                chars@ == hex_text(octets@.subrange(0, i as int)),
            decreases octets.len() - i,
        {
            let byte = octets[i];
            assert(octets@.subrange(0, i + 1).drop_last() =~= octets@.subrange(0, i as int));
            chars.push(hex_char_of(byte / 16));
            chars.push(hex_char_of(byte % 16));
            i = i + 1;
        }
        assert(octets@.subrange(0, octets.len() as int) =~= octets@);
        proof {
            lemma_hex_round_trip(octets@);
        }
        string_of_chars(&chars)
    }
}

} // verus!
