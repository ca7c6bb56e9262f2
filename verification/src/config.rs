//! Configuration values the node reads as text.

use vstd::prelude::*;
use crate::accounts::AccountMap;
use crate::crypto::{ed25519_point_valid, PublicKey};
use crate::encoding::{copy_to_32, decode_hex, hex_decoding, is_hex_text, string_from_chars, utf8};
use crate::text::{chars_of, copy_range, find_first, position_of, split_chars, split_on, trim_chars, trimmed};

verus! {

/// Why an entry of `INITIAL_AUTHORITIES` is refused: the trimmed entry
/// without a colon, or the name of the authority whose key is not hex, not
/// 32 bytes long, or not a point of the curve.
pub enum EntryFault {
    MissingColon(Seq<char>),
    InvalidHex(Seq<char>),
    WrongLength(Seq<char>),
    InvalidKey(Seq<char>),
}

/// One comma-separated entry: nothing when blank, else a name, a colon and
/// the hex of a public key (white space around the entry and the key
/// ignored).
pub open spec fn parse_entry(piece: Seq<char>) -> Result<Option<(Seq<char>, Seq<u8>)>, EntryFault> {
    let entry = trimmed(piece);
    if entry.len() == 0 {
        Ok(None)
    } else {
        match find_first(entry, ':') {
            None => Err(EntryFault::MissingColon(entry)),
            Some(colon) => {
                let name = entry.subrange(0, colon);
                let text = utf8(trimmed(entry.subrange(colon + 1, entry.len() as int)));
                if !is_hex_text(text) {
                    Err(EntryFault::InvalidHex(name))
                } else if hex_decoding(text).len() != 32 {
                    Err(EntryFault::WrongLength(name))
                } else if !ed25519_point_valid(hex_decoding(text)) {
                    Err(EntryFault::InvalidKey(name))
                } else {
                    Ok(Some((name, hex_decoding(text))))
                }
            },
        }
    }
}

/// The entries in order; a later entry for a name replaces an earlier one,
/// and the first faulty entry stops the parse.
pub open spec fn parse_entries(pieces: Seq<Seq<char>>) -> Result<Map<Seq<char>, Seq<u8>>, EntryFault>
    decreases pieces.len(),
{
    if pieces.len() == 0 {
        Ok(Map::empty())
    } else {
        match parse_entries(pieces.drop_last()) {
            Err(fault) => Err(fault),
            Ok(keys) => match parse_entry(pieces.last()) {
                Err(fault) => Err(fault),
                Ok(None) => Ok(keys),
                Ok(Some((name, key))) => Ok(keys.insert(name, key)),
            },
        }
    }
}

/// `message` reports `fault`. The reasons given by the hex and key
/// decoders are theirs and follow the fixed part.
pub open spec fn reports(fault: EntryFault, message: Seq<char>) -> bool {
    match fault {
        EntryFault::MissingColon(entry) => message == "INITIAL_AUTHORITIES: expected 'name:pubkey_hex', got '"@
            + entry + "'"@,
        EntryFault::InvalidHex(name) => ("INITIAL_AUTHORITIES: invalid hex for '"@ + name + "': "@).is_prefix_of(
            message,
        ),
        EntryFault::WrongLength(name) => message == "INITIAL_AUTHORITIES: '"@ + name + "' key must be 32 bytes"@,
        EntryFault::InvalidKey(name) => ("INITIAL_AUTHORITIES: invalid key for '"@ + name + "': "@).is_prefix_of(
            message,
        ),
    }
}

/// `keys` binds the same names as `parsed`, to the same key bytes.
pub open spec fn holds_keys(keys: Map<Seq<char>, PublicKey>, parsed: Map<Seq<char>, Seq<u8>>) -> bool {
    &&& keys.dom() == parsed.dom()
    &&& forall|name: Seq<char>| #[trigger] keys.contains_key(name) ==> keys[name].bytes@ == parsed[name]
}

fn parse_one(piece: &Vec<char>) -> (parsed: Result<Option<(String, PublicKey)>, String>)
    ensures
        match parse_entry(piece@) {
            Ok(None) => parsed matches Ok(None),
            Ok(Some((name, key))) => parsed matches Ok(Some((n, k))) && n@ == name && k.bytes@ == key,
            Err(fault) => parsed matches Err(message) && reports(fault, message@),
        },
{
    let entry = trim_chars(piece);
    if entry.len() == 0 {
        return Ok(None);
    }
    let colon = match position_of(&entry, ':') {
        Some(colon) => colon,
        None => {
            let mut message = "INITIAL_AUTHORITIES: expected 'name:pubkey_hex', got '".to_owned();
            message.append(string_from_chars(&entry).as_str());
            message.append("'");
            return Err(message);
        },
    };
    let name = string_from_chars(&copy_range(&entry, 0, colon));
    let hex_chars = trim_chars(&copy_range(&entry, colon + 1, entry.len()));
    let hex_text = string_from_chars(&hex_chars);
    let bytes = match decode_hex(hex_text.as_str()) {
        Ok(bytes) => bytes,
        Err(reason) => {
            let mut message = "INITIAL_AUTHORITIES: invalid hex for '".to_owned();
            message.append(name.as_str());
            message.append("': ");
            message.append(reason.as_str());
            return Err(message);
        },
    };
    if bytes.len() != 32 {
        let mut message = "INITIAL_AUTHORITIES: '".to_owned();
        message.append(name.as_str());
        message.append("' key must be 32 bytes");
        return Err(message);
    }
    let key = PublicKey { bytes: copy_to_32(&bytes) };
    match key.check() {
        Ok(()) => Ok(Some((name, key))),
        Err(reason) => {
            let mut message = "INITIAL_AUTHORITIES: invalid key for '".to_owned();
            message.append(name.as_str());
            message.append("': ");
            message.append(reason.as_str());
            Err(message)
        },
    }
}

/// Parses a comma-separated list of "name:pubkey_hex" pairs, such as
/// "alice:abc123...,bob:def456...". Blank entries are skipped.
pub fn parse_authorities(raw: &str) -> (parsed: Result<AccountMap<PublicKey>, String>)
    ensures
        match parse_entries(split_on(raw@, ',')) {
            Ok(keys) => parsed matches Ok(map) && holds_keys(map@, keys),
            Err(fault) => parsed matches Err(message) && reports(fault, message@),
        },
{
    let chars = chars_of(raw);
    let pieces = split_chars(&chars, ',');
    let ghost all = split_on(raw@, ',');
    let mut map: AccountMap<PublicKey> = AccountMap::new();
    let mut i: usize = 0;
    assert(all.subrange(0, 0) =~= Seq::<Seq<char>>::empty());
    assert(holds_keys(map@, Map::empty()));
    while i < pieces.len()
        invariant
            i <= pieces@.len(),
            all == split_on(raw@, ','),
            pieces@.len() == all.len(),
            forall|k: int| 0 <= k < pieces@.len() ==> (#[trigger] pieces@[k])@ == all[k],
            parse_entries(all.subrange(0, i as int)) matches Ok(keys) && holds_keys(map@, keys),
        decreases pieces@.len() - i,
    {
        let ghost before = parse_entries(all.subrange(0, i as int))->Ok_0;
        let ghost next = all.subrange(0, i + 1);
        assert(next.drop_last() =~= all.subrange(0, i as int));
        assert(next.last() == pieces@[i as int]@);
        match parse_one(&pieces[i]) {
            Ok(None) => {},
            Ok(Some((name, key))) => {
                map.insert(name, key);
                proof {
                    let expected = before.insert(name@, key.bytes@);
                    assert(map@.dom() =~= expected.dom());
                }
            },
            Err(message) => {
                proof {
                    let fault = parse_entry(pieces@[i as int]@)->Err_0;
                    assert(parse_entries(next) == Err::<Map<Seq<char>, Seq<u8>>, EntryFault>(fault));
                    lemma_fault_persists(all, i as int + 1);
                }
                return Err(message);
            },
        }
        i = i + 1;
    }
    assert(all.subrange(0, all.len() as int) =~= all);
    Ok(map)
}

proof fn lemma_fault_persists(pieces: Seq<Seq<char>>, n: int)
    requires
        0 <= n <= pieces.len(),
        parse_entries(pieces.subrange(0, n)) is Err,
    ensures
        parse_entries(pieces) == parse_entries(pieces.subrange(0, n)),
    decreases pieces.len() - n,
{
    if n == pieces.len() {
        assert(pieces.subrange(0, n) =~= pieces);
    } else {
        assert(pieces.subrange(0, n + 1).drop_last() =~= pieces.subrange(0, n));
        lemma_fault_persists(pieces, n + 1);
    }
}

} // verus!
