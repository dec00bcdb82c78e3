//! Strict metadata codec.
//!
//! The upload metadata header is a comma-separated list of pairs; a pair is a
//! key alone or a key and a standard-Base64 value separated by one space.
//! [`Metadata::parse`] reads that wire format into a key-to-raw-value mapping
//! (later occurrences of a key overwrite earlier ones) and
//! [`Metadata::get_raw`] decodes one stored value on demand.

use vstd::prelude::*;
use vstd::string::StrSliceExecFns;
use vstd::string::StringExecFns;

use crate::strings::split_char;
use crate::strings::split_str;
use crate::strings::str_eq;
use crate::strings::str_views;
use crate::strings::trim_spec;
use crate::strings::trim_str;

verus! {

/// Why parsing or a lookup failed.
#[derive(Debug)]
pub enum MetadataError {
    /// A key was absent from the mapping, or a pair's key was empty.
    InvalidKey,
    /// A stored value was not valid standard Base64; carries the decoder's
    /// diagnostic text.
    DecodeError(String),
    /// The wire text violated the pair grammar, or was empty.
    InvalidMetadataFormat,
}

impl PartialEq for MetadataError {
    fn eq(&self, other: &Self) -> (r: bool) {
        match (self, other) {
            (MetadataError::InvalidKey, MetadataError::InvalidKey) => true,
            (MetadataError::InvalidMetadataFormat, MetadataError::InvalidMetadataFormat) => true,
            (MetadataError::DecodeError(a), MetadataError::DecodeError(b)) => *a == *b,
            _ => false,
        }
    }
}

impl vstd::std_specs::cmp::PartialEqSpecImpl for MetadataError {
    open spec fn obeys_eq_spec() -> bool {
        true
    }

    open spec fn eq_spec(&self, other: &Self) -> bool {
        match (self, other) {
            (MetadataError::InvalidKey, MetadataError::InvalidKey) => true,
            (MetadataError::InvalidMetadataFormat, MetadataError::InvalidMetadataFormat) => true,
            (MetadataError::DecodeError(a), MetadataError::DecodeError(b)) => a@ == b@,
            _ => false,
        }
    }
}

/// What the standard Base64 decoder yields on a given text: the decoded bytes,
/// or nothing when the text is not valid padded standard Base64.
pub uninterp spec fn b64_decode_of(s: Seq<char>) -> Option<Seq<u8>>;

/// Relies on `base64::engine::general_purpose::STANDARD`'s `Engine::decode`:
/// strict standard alphabet with mandatory padding, and a result that depends
/// on the input characters alone. A decode failure carries the decoder's
/// diagnostic text.
#[verifier::external_body]
fn b64_decode(value: &str) -> (r: Result<Vec<u8>, String>)
    ensures
        match r {
            Ok(b) => b64_decode_of(value@) == Some(b@),
            Err(_) => b64_decode_of(value@) is None,
        },
{
    match base64::engine::Engine::decode(&base64::engine::general_purpose::STANDARD, value) {
        Ok(decoded) => Ok(decoded),
        Err(e) => Err(e.to_string()),
    }
}

/// The views of a list of owned key/value pairs.
pub open spec fn pair_views(s: Seq<(String, String)>) -> Seq<(Seq<char>, Seq<char>)> {
    s.map_values(|p: (String, String)| (p.0@, p.1@))
}

/// No two pairs carry the same key.
pub open spec fn keys_unique(s: Seq<(Seq<char>, Seq<char>)>) -> bool {
    forall|i: int, j: int| 0 <= i < j < s.len() ==> s[i].0 != s[j].0
}

/// The mapping an ordered list of pairs denotes; a later pair for a key
/// overwrites an earlier one.
pub open spec fn assoc_map(s: Seq<(Seq<char>, Seq<char>)>) -> Map<Seq<char>, Seq<char>>
    decreases s.len(),
{
    if s.len() == 0 {
        Map::empty()
    } else {
        assoc_map(s.drop_last()).insert(s.last().0, s.last().1)
    }
}

proof fn lemma_assoc_map_found(s: Seq<(Seq<char>, Seq<char>)>, i: int)
    requires
        keys_unique(s),
        0 <= i < s.len(),
    ensures
        assoc_map(s).contains_key(s[i].0),
        assoc_map(s)[s[i].0] == s[i].1,
    decreases s.len(),
{
    if i < s.len() - 1 {
        assert(keys_unique(s.drop_last()));
        lemma_assoc_map_found(s.drop_last(), i);
        assert(s.drop_last()[i] == s[i]);
        assert(s.last().0 != s[i].0);
    }
}

proof fn lemma_assoc_map_absent(s: Seq<(Seq<char>, Seq<char>)>, k: Seq<char>)
    requires
        forall|i: int| 0 <= i < s.len() ==> s[i].0 != k,
    ensures
        !assoc_map(s).contains_key(k),
    decreases s.len(),
{
    if s.len() > 0 {
        assert forall|i: int| 0 <= i < s.drop_last().len() implies s.drop_last()[i].0 != k by {
            assert(s.drop_last()[i] == s[i]);
        }
        lemma_assoc_map_absent(s.drop_last(), k);
    }
}

proof fn lemma_assoc_map_remove(s: Seq<(Seq<char>, Seq<char>)>, i: int)
    requires
        keys_unique(s),
        0 <= i < s.len(),
    ensures
        keys_unique(s.remove(i)),
        assoc_map(s.remove(i)) == assoc_map(s).remove(s[i].0),
    decreases s.len(),
{
    assert(keys_unique(s.drop_last()));
    if i == s.len() - 1 {
        assert(s.remove(i) =~= s.drop_last());
        assert forall|j: int| 0 <= j < s.drop_last().len() implies s.drop_last()[j].0 != s[i].0 by {
            assert(s.drop_last()[j] == s[j]);
        }
        lemma_assoc_map_absent(s.drop_last(), s[i].0);
        assert(assoc_map(s.remove(i)) =~= assoc_map(s).remove(s[i].0));
    } else {
        lemma_assoc_map_remove(s.drop_last(), i);
        assert(s.remove(i).drop_last() =~= s.drop_last().remove(i));
        assert(s.remove(i).last() == s.last());
        assert(s.drop_last()[i] == s[i]);
        assert(s.last().0 != s[i].0);
        assert(assoc_map(s.remove(i)) == assoc_map(s.drop_last().remove(i)).insert(
            s.last().0,
            s.last().1,
        ));
        assert(assoc_map(s.remove(i)) =~= assoc_map(s).remove(s[i].0));
    }
}

proof fn lemma_assoc_map_len(s: Seq<(Seq<char>, Seq<char>)>)
    requires
        keys_unique(s),
    ensures
        assoc_map(s).dom().finite(),
        assoc_map(s).dom().len() == s.len(),
    decreases s.len(),
{
    if s.len() == 0 {
        assert(assoc_map(s).dom() =~= Set::<Seq<char>>::empty());
    } else {
        assert(keys_unique(s.drop_last()));
        lemma_assoc_map_len(s.drop_last());
        assert forall|j: int| 0 <= j < s.drop_last().len() implies s.drop_last()[j].0
            != s.last().0 by {
            assert(s.drop_last()[j] == s[j]);
        }
        lemma_assoc_map_absent(s.drop_last(), s.last().0);
        assert(assoc_map(s).dom() =~= assoc_map(s.drop_last()).dom().insert(s.last().0));
    }
}

/// Stores `key` and `value`, overwriting the pair that carried `key` before,
/// if any.
pub(crate) fn vec_insert_pair(pairs: &mut Vec<(String, String)>, key: String, value: String)
    requires
        keys_unique(pair_views(old(pairs)@)),
    ensures
        keys_unique(pair_views(final(pairs)@)),
        assoc_map(pair_views(final(pairs)@)) == assoc_map(pair_views(old(pairs)@)).insert(
            key@,
            value@,
        ),
{
    let ghost kview = key@;
    let ghost vview = value@;
    let n = pairs.len();
    let mut i: usize = 0;
    while i < n
        invariant
            i <= n,
            n == pairs@.len(),
            pairs@ == old(pairs)@,
            key@ == kview,
            value@ == vview,
            keys_unique(pair_views(pairs@)),
            forall|j: int| 0 <= j < i ==> pair_views(pairs@)[j].0 != kview,
        decreases n - i,
    {
        let hit = str_eq(pairs[i].0.as_str(), key.as_str());
        proof {
            assert(pair_views(pairs@)[i as int] == (pairs@[i as int].0@, pairs@[i as int].1@));
            assert(hit == (pairs@[i as int].0@ == key@));
            assert(hit == (pair_views(pairs@)[i as int].0 == kview));
        }
        if hit {
            let ghost s0 = pair_views(pairs@);
            proof {
                assert(s0[i as int].0 == kview);
                lemma_assoc_map_remove(s0, i as int);
                assert(pair_views(pairs@.remove(i as int)) =~= s0.remove(i as int));
            }
            pairs.remove(i);
            let ghost s1 = pair_views(pairs@);
            pairs.push((key, value));
            proof {
                assert(pair_views(pairs@).drop_last() =~= s1);
                assert(pair_views(pairs@).last() == (kview, vview));
                assert forall|a: int, b: int|
                    0 <= a < b < pair_views(pairs@).len() implies pair_views(pairs@)[a].0
                    != pair_views(pairs@)[b].0 by {
                    if b < pair_views(pairs@).len() - 1 {
                        assert(pair_views(pairs@)[a] == s1[a]);
                        assert(pair_views(pairs@)[b] == s1[b]);
                    } else {
                        assert(pair_views(pairs@)[b] == (kview, vview));
                        assert(pair_views(pairs@)[a] == s1[a]);
                        if a < i {
                            assert(s1[a] == s0[a]);
                        } else {
                            assert(s1[a] == s0[a + 1]);
                        }
                    }
                }
                assert(assoc_map(pair_views(pairs@)) == assoc_map(s1).insert(kview, vview));
                assert(assoc_map(pair_views(pairs@)) =~= assoc_map(s0).insert(kview, vview));
            }
            return ;
        }
        i = i + 1;
    }
    let ghost s0 = pair_views(pairs@);
    pairs.push((key, value));
    proof {
        assert(pair_views(pairs@).drop_last() =~= s0);
        assert(pair_views(pairs@).last() == (kview, vview));
        assert forall|a: int, b: int|
            0 <= a < b < pair_views(pairs@).len() implies pair_views(pairs@)[a].0 != pair_views(
            pairs@,
        )[b].0 by {
            assert(pair_views(pairs@)[a] == s0[a]);
            if b < pair_views(pairs@).len() - 1 {
                assert(pair_views(pairs@)[b] == s0[b]);
            }
        }
        assert(assoc_map(pair_views(pairs@)) == assoc_map(s0).insert(kview, vview));
    }
}

/// A mapping from metadata keys to raw (still Base64-encoded) values.
#[derive(Debug)]
pub struct Metadata {
    pairs: Vec<(String, String)>,
}

impl Metadata {
    #[verifier::type_invariant]
    spec fn wf(self) -> bool {
        keys_unique(pair_views(self.pairs@))
    }
}

impl View for Metadata {
    type V = Map<Seq<char>, Seq<char>>;

    closed spec fn view(&self) -> Map<Seq<char>, Seq<char>> {
        assoc_map(pair_views(self.pairs@))
    }
}

/// What one comma segment splits into: the segment is trimmed, cut at every
/// space, and each token is trimmed.
pub open spec fn seg_parts(seg: Seq<char>) -> Seq<Seq<char>> {
    split_char(trim_spec(seg), ' ').map_values(|t: Seq<char>| trim_spec(t))
}

/// A segment that trims to nothing is skipped.
pub open spec fn seg_blank(seg: Seq<char>) -> bool {
    trim_spec(seg).len() == 0
}

/// A well-formed segment: not blank, at most two tokens, non-empty key.
pub open spec fn seg_valid(seg: Seq<char>) -> bool {
    &&& !seg_blank(seg)
    &&& seg_parts(seg).len() <= 2
    &&& seg_parts(seg)[0].len() > 0
}

/// The key a well-formed segment binds.
pub open spec fn seg_key(seg: Seq<char>) -> Seq<char> {
    seg_parts(seg)[0]
}

/// The raw value a well-formed segment binds: its second token, or the empty
/// string when the segment is a key alone.
pub open spec fn seg_value(seg: Seq<char>) -> Seq<char> {
    if seg_parts(seg).len() == 2 {
        seg_parts(seg)[1]
    } else {
        Seq::empty()
    }
}

/// Folds the comma segments into a mapping, starting from `acc`: blank
/// segments are skipped, more than two tokens is a format violation, an empty
/// key is a key violation, and a well-formed segment overwrites its key.
pub open spec fn parse_segments(segs: Seq<Seq<char>>, acc: Map<Seq<char>, Seq<char>>) -> Result<
    Map<Seq<char>, Seq<char>>,
    MetadataError,
>
    decreases segs.len(),
{
    if segs.len() == 0 {
        Ok(acc)
    } else {
        let first = segs.first();
        if seg_blank(first) {
            parse_segments(segs.drop_first(), acc)
        } else if seg_parts(first).len() > 2 {
            Err(MetadataError::InvalidMetadataFormat)
        } else if seg_parts(first)[0].len() == 0 {
            Err(MetadataError::InvalidKey)
        } else {
            parse_segments(segs.drop_first(), acc.insert(seg_key(first), seg_value(first)))
        }
    }
}

/// What strict parsing yields on a whole wire text: empty input is a format
/// violation; otherwise the text is split on commas and folded.
pub open spec fn parse_spec(s: Seq<char>) -> Result<Map<Seq<char>, Seq<char>>, MetadataError> {
    if s.len() == 0 {
        Err(MetadataError::InvalidMetadataFormat)
    } else {
        parse_segments(split_char(s, ','), Map::empty())
    }
}

/// The bytes a lookup on `m` recovers for `key`: the Base64 decoding of the
/// stored value, or nothing when the key is absent or the value does not
/// decode.
pub open spec fn get_raw_ok(m: Map<Seq<char>, Seq<char>>, key: Seq<char>) -> Option<Seq<u8>> {
    if m.contains_key(key) {
        b64_decode_of(m[key])
    } else {
        None
    }
}

impl Metadata {
    /// An empty mapping.
    pub fn new() -> (m: Metadata)
        ensures
            m@ == Map::<Seq<char>, Seq<char>>::empty(),
    {
        let m = Metadata { pairs: Vec::new() };
        proof {
            assert(pair_views(m.pairs@) =~= Seq::<(Seq<char>, Seq<char>)>::empty());
            assert(m@ =~= Map::<Seq<char>, Seq<char>>::empty());
        }
        m
    }

    /// Wraps a list of pairs whose keys are already unique.
    pub(crate) fn from_pairs(pairs: Vec<(String, String)>) -> (m: Metadata)
        requires
            keys_unique(pair_views(pairs@)),
        ensures
            m@ == assoc_map(pair_views(pairs@)),
    {
        Metadata { pairs }
    }

    /// How many keys the mapping holds.
    pub fn len(&self) -> (n: usize)
        ensures
            n == self@.dom().len(),
    {
        proof {
            use_type_invariant(&*self);
            lemma_assoc_map_len(pair_views(self.pairs@));
        }
        self.pairs.len()
    }

    /// The raw (still encoded) value stored under `key`, if any.
    pub fn get(&self, key: &str) -> (r: Option<&String>)
        ensures
            match r {
                Some(v) => self@.contains_key(key@) && v@ == self@[key@],
                None => !self@.contains_key(key@),
            },
    {
        proof {
            use_type_invariant(&*self);
        }
        let n = self.pairs.len();
        let mut i: usize = 0;
        while i < n
            invariant
                i <= n,
                n == self.pairs@.len(),
                keys_unique(pair_views(self.pairs@)),
                forall|j: int| 0 <= j < i ==> pair_views(self.pairs@)[j].0 != key@,
            decreases n - i,
        {
            if str_eq(self.pairs[i].0.as_str(), key) {
                proof {
                    lemma_assoc_map_found(pair_views(self.pairs@), i as int);
                }
                return Some(&self.pairs[i].1);
            }
            i = i + 1;
        }
        proof {
            lemma_assoc_map_absent(pair_views(self.pairs@), key@);
        }
        None
    }

    /// Decodes the value stored under `key`: `InvalidKey` when the key is
    /// absent, `DecodeError` when the stored value is not valid standard
    /// Base64, and the decoded bytes otherwise.
    pub fn get_raw(&self, key: &str) -> (r: Result<Vec<u8>, MetadataError>)
        ensures
            match r {
                Ok(b) => get_raw_ok(self@, key@) == Some(b@),
                Err(e) => match e {
                    MetadataError::InvalidKey => !self@.contains_key(key@),
                    MetadataError::DecodeError(_) => self@.contains_key(key@) && b64_decode_of(
                        self@[key@],
                    ) is None,
                    MetadataError::InvalidMetadataFormat => false,
                },
            },
    {
        let value = match self.get(key) {
            Some(v) => v,
            None => {
                return Err(MetadataError::InvalidKey);
            },
        };
        match b64_decode(value.as_str()) {
            Ok(decoded) => Ok(decoded),
            Err(e) => Err(MetadataError::DecodeError(e)),
        }
    }

    /// Strictly parses the metadata wire text, as the specification
    /// [`parse_spec`] describes: empty input is `InvalidMetadataFormat`; each
    /// comma segment is trimmed, blank segments are skipped, a segment of more
    /// than two space-separated tokens is `InvalidMetadataFormat`, an empty
    /// key is `InvalidKey`, and a key alone stands for the empty value.
    pub fn parse(raw: &str) -> (r: Result<Metadata, MetadataError>)
        ensures
            ({
                let sp = parse_spec(raw@);
                match r {
                    Ok(m) => sp == Ok::<Map<Seq<char>, Seq<char>>, MetadataError>(m@),
                    Err(e) => sp == Err::<Map<Seq<char>, Seq<char>>, MetadataError>(e),
                }
            }),
            raw@.len() == 0 ==> r == Err::<Metadata, MetadataError>(
                MetadataError::InvalidMetadataFormat,
            ),
    {
        if raw.is_empty() {
            return Err(MetadataError::InvalidMetadataFormat);
        }
        let segments = split_str(raw, ',');
        let ghost segs = split_char(raw@, ',');
        let mut pairs: Vec<(String, String)> = Vec::new();
        proof {
            assert(pair_views(pairs@) =~= Seq::<(Seq<char>, Seq<char>)>::empty());
            assert(assoc_map(pair_views(pairs@)) =~= Map::<Seq<char>, Seq<char>>::empty());
            assert(segs.skip(0) =~= segs);
        }
        let n = segments.len();
        let mut idx: usize = 0;
        while idx < n
            invariant
                idx <= n,
                n == segments@.len(),
                str_views(segments@) == segs,
                segs == split_char(raw@, ','),
                keys_unique(pair_views(pairs@)),
                parse_segments(segs, Map::empty()) == parse_segments(
                    segs.skip(idx as int),
                    assoc_map(pair_views(pairs@)),
                ),
            decreases n - idx,
        {
            proof {
                assert(segs.skip(idx as int).first() == segs[idx as int]);
                assert(segs.skip(idx as int).drop_first() =~= segs.skip(idx as int + 1));
                assert(segments@[idx as int]@ == segs[idx as int]);
            }
            let seg = trim_str(segments[idx].as_str());
            if seg.is_empty() {
                idx = idx + 1;
                continue ;
            }
            let parts = split_str(seg, ' ');
            let ghost sparts = seg_parts(segs[idx as int]);
            proof {
                assert(sparts =~= str_views(parts@).map_values(|t: Seq<char>| trim_spec(t)));
                assert(sparts.len() == parts@.len());
            }
            if parts.len() > 2 {
                return Err(MetadataError::InvalidMetadataFormat);
            }
            let key = String::from_str(trim_str(parts[0].as_str()));
            proof {
                assert(sparts[0] == trim_spec(str_views(parts@)[0]));
                assert(key@ == sparts[0]);
            }
            if key.as_str().is_empty() {
                return Err(MetadataError::InvalidKey);
            }
            let value = if parts.len() == 2 {
                String::from_str(trim_str(parts[1].as_str()))
            } else {
                String::new()
            };
            proof {
                if parts@.len() == 2 {
                    assert(sparts[1] == trim_spec(str_views(parts@)[1]));
                }
                assert(value@ == seg_value(segs[idx as int]));
                assert(key@ == seg_key(segs[idx as int]));
            }
            vec_insert_pair(&mut pairs, key, value);
            idx = idx + 1;
        }
        proof {
            assert(segs.skip(n as int) =~= Seq::<Seq<char>>::empty());
        }
        Ok(Metadata::from_pairs(pairs))
    }
}

proof fn lemma_unbound_key_preserved(
    segs: Seq<Seq<char>>,
    acc: Map<Seq<char>, Seq<char>>,
    k: Seq<char>,
)
    requires
        forall|j: int| 0 <= j < segs.len() ==> seg_blank(#[trigger] segs[j]) || seg_key(segs[j])
            != k,
    ensures
        parse_segments(segs, acc) matches Ok(m) ==> m.contains_key(k) == acc.contains_key(k) && (
        acc.contains_key(k) ==> m[k] == acc[k]),
    decreases segs.len(),
{
    if segs.len() > 0 {
        let first = segs.first();
        assert(segs[0] == first);
        assert forall|j: int| 0 <= j < segs.drop_first().len() implies seg_blank(
            #[trigger] segs.drop_first()[j],
        ) || seg_key(segs.drop_first()[j]) != k by {
            assert(segs.drop_first()[j] == segs[j + 1]);
        }
        if seg_blank(first) {
            lemma_unbound_key_preserved(segs.drop_first(), acc, k);
        } else if seg_parts(first).len() > 2 {
        } else if seg_parts(first)[0].len() == 0 {
        } else {
            lemma_unbound_key_preserved(
                segs.drop_first(),
                acc.insert(seg_key(first), seg_value(first)),
                k,
            );
        }
    }
}

proof fn lemma_segments_last_binding(segs: Seq<Seq<char>>, acc: Map<Seq<char>, Seq<char>>, i: int)
    requires
        0 <= i < segs.len(),
        seg_valid(segs[i]),
        forall|j: int| i < j < segs.len() ==> seg_blank(#[trigger] segs[j]) || seg_key(segs[j])
            != seg_key(segs[i]),
    ensures
        parse_segments(segs, acc) matches Ok(m) ==> m.contains_key(seg_key(segs[i])) && m[seg_key(
            segs[i],
        )] == seg_value(segs[i]),
    decreases segs.len(),
{
    let first = segs.first();
    assert(segs[0] == first);
    if i == 0 {
        let acc2 = acc.insert(seg_key(first), seg_value(first));
        assert forall|j: int| 0 <= j < segs.drop_first().len() implies seg_blank(
            #[trigger] segs.drop_first()[j],
        ) || seg_key(segs.drop_first()[j]) != seg_key(first) by {
            assert(segs.drop_first()[j] == segs[j + 1]);
        }
        lemma_unbound_key_preserved(segs.drop_first(), acc2, seg_key(first));
    } else {
        assert(segs.drop_first()[i - 1] == segs[i]);
        assert forall|j: int| i - 1 < j < segs.drop_first().len() implies seg_blank(
            #[trigger] segs.drop_first()[j],
        ) || seg_key(segs.drop_first()[j]) != seg_key(segs.drop_first()[i - 1]) by {
            assert(segs.drop_first()[j] == segs[j + 1]);
        }
        if seg_blank(first) {
            lemma_segments_last_binding(segs.drop_first(), acc, i - 1);
        } else if seg_parts(first).len() > 2 {
        } else if seg_parts(first)[0].len() == 0 {
        } else {
            lemma_segments_last_binding(
                segs.drop_first(),
                acc.insert(seg_key(first), seg_value(first)),
                i - 1,
            );
        }
    }
}

proof fn lemma_segments_ok_iff(segs: Seq<Seq<char>>, acc: Map<Seq<char>, Seq<char>>)
    ensures
        parse_segments(segs, acc) is Ok <==> (forall|j: int|
            0 <= j < segs.len() ==> seg_blank(#[trigger] segs[j]) || seg_valid(segs[j])),
    decreases segs.len(),
{
    if segs.len() > 0 {
        let first = segs.first();
        let rest = segs.drop_first();
        assert(segs[0] == first);
        if seg_blank(first) || seg_valid(first) {
            if seg_blank(first) {
                lemma_segments_ok_iff(rest, acc);
            } else {
                lemma_segments_ok_iff(rest, acc.insert(seg_key(first), seg_value(first)));
            }
            if forall|j: int| 0 <= j < rest.len() ==> seg_blank(#[trigger] rest[j]) || seg_valid(
                rest[j],
            ) {
                assert forall|j: int| 0 <= j < segs.len() implies seg_blank(#[trigger] segs[j])
                    || seg_valid(segs[j]) by {
                    if j > 0 {
                        assert(rest[j - 1] == segs[j]);
                    }
                }
            } else {
                let j = choose|j: int|
                    0 <= j < rest.len() && !(seg_blank(#[trigger] rest[j]) || seg_valid(rest[j]));
                assert(segs[j + 1] == rest[j]);
            }
        }
    }
}

/// When strict parsing is owed success: exactly on a non-empty wire text each
/// of whose comma segments is blank or well formed.
pub proof fn lemma_parse_success_characterized(s: Seq<char>)
    ensures
        parse_spec(s) is Ok <==> (s.len() > 0 && forall|j: int|
            0 <= j < split_char(s, ',').len() ==> seg_blank(#[trigger] split_char(s, ',')[j])
                || seg_valid(split_char(s, ',')[j])),
{
    if s.len() > 0 {
        lemma_segments_ok_iff(split_char(s, ','), Map::empty());
    }
}

/// Duplicate keys: when the wire text parses, the mapping holds, for the key
/// of any well-formed pair that no later pair rebinds, exactly that pair's
/// value — the last occurrence of a key wins.
pub proof fn lemma_parse_last_binding_wins(s: Seq<char>, i: int)
    requires
        0 <= i < split_char(s, ',').len(),
        seg_valid(split_char(s, ',')[i]),
        forall|j: int| i < j < split_char(s, ',').len() ==> seg_blank(
            #[trigger] split_char(s, ',')[j],
        ) || seg_key(split_char(s, ',')[j]) != seg_key(split_char(s, ',')[i]),
    ensures
        parse_spec(s) matches Ok(m) ==> m.contains_key(seg_key(split_char(s, ',')[i]))
            && m[seg_key(split_char(s, ',')[i])] == seg_value(split_char(s, ',')[i]),
{
    if s.len() > 0 {
        lemma_segments_last_binding(split_char(s, ','), Map::empty(), i);
    }
}

/// Round trip: after a successful strict parse, decoding a key via `get_raw`
/// recovers exactly the bytes that were Base64-encoded beside that key's last
/// well-formed occurrence in the wire text.
pub proof fn lemma_parse_get_raw_round_trip(s: Seq<char>, i: int, bytes: Seq<u8>)
    requires
        0 <= i < split_char(s, ',').len(),
        seg_valid(split_char(s, ',')[i]),
        forall|j: int| i < j < split_char(s, ',').len() ==> seg_blank(
            #[trigger] split_char(s, ',')[j],
        ) || seg_key(split_char(s, ',')[j]) != seg_key(split_char(s, ',')[i]),
    ensures
        (parse_spec(s) matches Ok(m) && b64_decode_of(seg_value(split_char(s, ',')[i])) == Some(
            bytes,
        )) ==> get_raw_ok(parse_spec(s)->Ok_0, seg_key(split_char(s, ',')[i])) == Some(bytes),
{
    lemma_parse_last_binding_wins(s, i);
}

proof fn lemma_segments_oversized(segs: Seq<Seq<char>>, acc: Map<Seq<char>, Seq<char>>, i: int)
    requires
        0 <= i < segs.len(),
        !seg_blank(segs[i]),
        seg_parts(segs[i]).len() > 2,
    ensures
        parse_segments(segs, acc) is Err,
        (forall|j: int| 0 <= j < i ==> seg_blank(#[trigger] segs[j]) || seg_valid(segs[j]))
            ==> parse_segments(segs, acc) == Err::<Map<Seq<char>, Seq<char>>, MetadataError>(
            MetadataError::InvalidMetadataFormat,
        ),
    decreases segs.len(),
{
    let first = segs.first();
    assert(segs[0] == first);
    if i == 0 {
    } else {
        assert(segs.drop_first()[i - 1] == segs[i]);
        if seg_blank(first) {
            lemma_segments_oversized(segs.drop_first(), acc, i - 1);
        } else if seg_parts(first).len() > 2 {
        } else if seg_parts(first)[0].len() == 0 {
        } else {
            lemma_segments_oversized(
                segs.drop_first(),
                acc.insert(seg_key(first), seg_value(first)),
                i - 1,
            );
        }
        if (forall|j: int| 0 <= j < i ==> seg_blank(#[trigger] segs[j]) || seg_valid(segs[j])) {
            assert forall|j: int| 0 <= j < i - 1 implies seg_blank(#[trigger] segs.drop_first()[j])
                || seg_valid(segs.drop_first()[j]) by {
                assert(segs.drop_first()[j] == segs[j + 1]);
            }
        }
    }
}

/// A pair of more than two space-separated tokens poisons the whole strict
/// parse; when every pair before it is blank or well formed, the reported
/// error is the format violation itself.
pub proof fn lemma_oversized_pair_rejected(s: Seq<char>, i: int)
    requires
        0 <= i < split_char(s, ',').len(),
        !seg_blank(split_char(s, ',')[i]),
        seg_parts(split_char(s, ',')[i]).len() > 2,
    ensures
        parse_spec(s) is Err,
        (forall|j: int| 0 <= j < i ==> seg_blank(#[trigger] split_char(s, ',')[j]) || seg_valid(
            split_char(s, ',')[j],
        )) ==> parse_spec(s) == Err::<Map<Seq<char>, Seq<char>>, MetadataError>(
            MetadataError::InvalidMetadataFormat,
        ),
{
    if s.len() > 0 {
        lemma_segments_oversized(split_char(s, ','), Map::empty(), i);
    }
}

} // verus!

