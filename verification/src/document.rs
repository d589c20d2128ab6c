//! The persisted pairing document: a JSON object of string pairs.

use crate::store::{
    entry_keys, entry_values, gathered, lemma_gathered_pairing, pairing, PairEntry, PairingStore,
};
use std::collections::BTreeMap;
use std::collections::HashMap;
use vstd::prelude::*;

verus! {

/// The error type of `serde_json`, carried through as it is: nothing is known
/// of what it holds.
#[verifier::external_type_specification]
#[verifier::external_body]
pub struct ExJsonError(serde_json::Error);

/// The pairs that a text holds when it is read as a JSON object of
/// string-to-string entries, or `None` where it is no such object.
pub uninterp spec fn json_object(text: Seq<char>) -> Option<Map<Seq<char>, Seq<char>>>;

/// The pretty-printed JSON object that holds `pairs`, its entries in the order
/// of their keys.
pub uninterp spec fn json_pretty(pairs: Map<Seq<char>, Seq<char>>) -> Seq<char>;

/// Why a document could not be loaded.
#[derive(Debug, Clone, Copy, PartialEq, Eq, Structural)]
pub enum LoadError {
    /// The document could not be read.
    Unreadable,
    /// The document is no JSON object of string pairs.
    Malformed,
}

/// Why a document could not be saved.
#[derive(Debug, Clone, Copy, PartialEq, Eq, Structural)]
pub enum SaveError {
    /// The pairs could not be written down as JSON.
    Unserializable,
}

/// `serde_json::from_str` at `HashMap<String, String>`, its entries handed out
/// as a list. It accepts exactly the texts that are a JSON object of strings;
/// the entries that come back are those of the object, each key once, in no
/// stated order.
#[verifier::external_body]
fn parse_object(text: &str) -> (r: Result<Vec<PairEntry>, serde_json::Error>)
    ensures
        match r {
            Ok(entries) => entry_keys(entries@).no_duplicates() && json_object(text@) == Some(
                pairing(entry_keys(entries@), entry_values(entries@)),
            ),
            Err(_) => json_object(text@) is None,
        },
{
    let object: HashMap<String, String> = serde_json::from_str(text)?;
    Ok(
        object.into_iter().map(
            |(video, audio)| PairEntry { video_identity: video, audio_identity: audio },
        ).collect(),
    )
}

/// `serde_json::to_string_pretty` on the entries as a map ordered by key.
/// The call succeeds: the text is written to memory, and every key is a
/// string. The text that comes back is the pretty-printed object of the
/// entries, and reading it as a JSON object gives the same entries back.
#[verifier::external_body]
fn render_object(entries: &Vec<PairEntry>) -> (r: Result<String, serde_json::Error>)
    requires
        entry_keys(entries@).no_duplicates(),
    ensures
        r is Ok,
        r matches Ok(text) ==> text@ == json_pretty(
            pairing(entry_keys(entries@), entry_values(entries@)),
        ) && json_object(text@) == Some(pairing(entry_keys(entries@), entry_values(entries@))),
{
    let object: BTreeMap<&str, &str> = entries.iter().map(
        |entry| (entry.video_identity.as_str(), entry.audio_identity.as_str()),
    ).collect();
    serde_json::to_string_pretty(&object)
}

/// What reading gives for each outcome of the parser.
pub fn read_outcome(parsed: Result<Vec<PairEntry>, serde_json::Error>) -> (r: Result<
    PairingStore,
    LoadError,
>)
    ensures
        match r {
            Ok(store) => parsed matches Ok(entries) && store@ == gathered(
                entry_keys(entries@),
                entry_values(entries@),
            ),
            Err(e) => parsed is Err && e == LoadError::Malformed,
        },
{
    match parsed {
        Ok(entries) => Ok(PairingStore::from_entries(entries)),
        Err(_) => Err(LoadError::Malformed),
    }
}

/// The pairs of a document, as they stand in it.
pub fn read_document(text: &str) -> (r: Result<PairingStore, LoadError>)
    ensures
        match r {
            Ok(store) => json_object(text@) == Some(store@),
            Err(e) => e == LoadError::Malformed && json_object(text@) is None,
        },
{
    let parsed = parse_object(text);
    proof {
        if parsed is Ok {
            let entries = parsed->Ok_0;
            lemma_gathered_pairing(entry_keys(entries@), entry_values(entries@));
        }
    }
    read_outcome(parsed)
}

/// What writing gives for each outcome of the serializer.
pub fn write_outcome(rendered: Result<String, serde_json::Error>) -> (r: Result<String, SaveError>)
    ensures
        match r {
            Ok(text) => rendered matches Ok(t) && text@ == t@,
            Err(e) => rendered is Err && e == SaveError::Unserializable,
        },
{
    match rendered {
        Ok(text) => Ok(text),
        Err(_) => Err(SaveError::Unserializable),
    }
}

/// The document text of `store`: a text that reads back as the pairs of the
/// store.
pub fn write_document(store: &PairingStore) -> (r: Result<String, SaveError>)
    ensures
        r matches Ok(text) && text@ == json_pretty(store@) && json_object(text@) == Some(store@),
{
    write_outcome(render_object(store.entries()))
}

} // verus!
