//! DNS lookups over HTTPS (DoH), to be routed through a SOCKS5 proxy.

use vstd::prelude::*;
use vstd::string::StringExecFns;

use crate::text::{decimal, decimal_text};

verus! {

/// The record type of IPv4 addresses.
pub const RECORD_A: u8 = 1;

/// The record type of IPv6 addresses.
pub const RECORD_AAAA: u8 = 28;

/// An answer to a lookup.
#[derive(Debug)]
pub struct AnswerEntry {
    /// The IP address as a string
    pub data: String,
    /// Record type; 1=A, 28=AAAA
    pub record_type: u8,
}

/// The record types to ask for, in their order.
pub fn record_types() -> (r: Vec<u8>)
    ensures
        r@ == seq![RECORD_A, RECORD_AAAA],
{
    let mut types: Vec<u8> = Vec::new();
    types.push(RECORD_A);
    types.push(RECORD_AAAA);
    assert(types@ =~= seq![RECORD_A, RECORD_AAAA]);
    types
}

/// The URL that asks for the records of a type that a host has.
pub fn query_url(host: &str, record_type: u8) -> (r: String)
    ensures
        r@ == "https://dns.google/resolve?name="@ + host@ + "&type="@ + decimal(
            record_type as nat,
        ),
{
    let mut url = String::from_str("https://dns.google/resolve?name=");
    url.append(host);
    url.append("&type=");
    url.append(decimal_text(record_type as u64).as_str());
    url
}

/// The text in answers of a type, in their order.
pub open spec fn data_of_type(answers: Seq<AnswerEntry>, record_type: u8) -> Seq<Seq<char>>
    decreases answers.len(),
{
    if answers.len() == 0 {
        Seq::empty()
    } else {
        let before = data_of_type(answers.drop_last(), record_type);
        if answers.last().record_type == record_type {
            before.push(answers.last().data@)
        } else {
            before
        }
    }
}

/// Texts as they read.
pub open spec fn text_views(texts: Seq<String>) -> Seq<Seq<char>> {
    texts.map_values(|text: String| text@)
}

/// The text in answers of a type, each to be read as an IP address. Whatever else was sent along
/// is left out.
pub fn answers_of_type(answers: &Vec<AnswerEntry>, record_type: u8) -> (r: Vec<String>)
    ensures
        text_views(r@) == data_of_type(answers@, record_type),
{
    let mut texts: Vec<String> = Vec::new();
    assert(text_views(texts@) =~= Seq::empty());
    let mut i: usize = 0;
    while i < answers.len()
        invariant
            i <= answers@.len(),
            text_views(texts@) == data_of_type(answers@.take(i as int), record_type),
        decreases answers@.len() - i,
    {
        let ghost before = texts@;
        assert(answers@.take(i + 1).drop_last() =~= answers@.take(i as int));
        if answers[i].record_type == record_type {
            texts.push(String::from_str(answers[i].data.as_str()));
            assert(text_views(texts@) =~= text_views(before).push(answers@[i as int].data@));
        }
        i = i + 1;
    }
    assert(answers@.take(i as int) =~= answers@);
    texts
}

} // verus!
