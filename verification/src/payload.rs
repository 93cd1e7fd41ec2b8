use vstd::prelude::*;

use crate::text::{chars_of, lemma_split_len, split, split_spec, string_of, views};

verus! {

/// The key and value of one `key=value` field: the text before the first `=`,
/// and the text between the first `=` and the next one (or the end).
pub open spec fn field_spec(field: Seq<char>) -> (Seq<char>, Seq<char>) {
    let parts = split_spec(field, '=');
    (parts[0], parts[1])
}

/// The fields of a form body, in order.
pub open spec fn fields_spec(payload: Seq<char>) -> Seq<(Seq<char>, Seq<char>)> {
    let pieces = split_spec(payload, '&');
    Seq::new(pieces.len(), |i: int| field_spec(pieces[i]))
}

/// A body can be read when every `&`-separated field holds an `=`.
pub open spec fn payload_well_formed_spec(payload: Seq<char>) -> bool {
    let pieces = split_spec(payload, '&');
    forall|i: int| 0 <= i < pieces.len() ==> #[trigger] split_spec(pieces[i], '=').len() >= 2
}

/// The map that inserting the pairs in order builds: a later pair for a key
/// replaces an earlier one.
pub open spec fn pairs_map(pairs: Seq<(Seq<char>, Seq<char>)>) -> Map<Seq<char>, Seq<char>>
    decreases pairs.len(),
{
    if pairs.len() == 0 {
        Map::empty()
    } else {
        pairs_map(pairs.drop_last()).insert(pairs.last().0, pairs.last().1)
    }
}

/// The fields of a form body, by key.
pub open spec fn payload_map(payload: Seq<char>) -> Map<Seq<char>, Seq<char>> {
    pairs_map(fields_spec(payload))
}

/// The fields of a `key=value&key=value` request body.
pub struct Payload {
    pairs: Vec<(String, String)>,
}

/// The views of a sequence of string pairs.
pub open spec fn pair_views(pairs: Seq<(String, String)>) -> Seq<(Seq<char>, Seq<char>)> {
    Seq::new(pairs.len(), |i: int| (pairs[i].0@, pairs[i].1@))
}

impl View for Payload {
    type V = Map<Seq<char>, Seq<char>>;

    closed spec fn view(&self) -> Map<Seq<char>, Seq<char>> {
        pairs_map(pair_views(self.pairs@))
    }
}

/// Pairs after the last one with key `k` do not change what the map holds for `k`.
proof fn lemma_pairs_map_tail(pairs: Seq<(Seq<char>, Seq<char>)>, j: int, k: Seq<char>)
    requires
        0 <= j <= pairs.len(),
        forall|i: int| j <= i < pairs.len() ==> (#[trigger] pairs[i]).0 != k,
    ensures
        pairs_map(pairs).contains_key(k) == pairs_map(pairs.take(j)).contains_key(k),
        pairs_map(pairs).contains_key(k) ==> pairs_map(pairs)[k] == pairs_map(pairs.take(j))[k],
    decreases pairs.len() - j,
{
    if j < pairs.len() {
        let p = pairs.take(j + 1);
        lemma_pairs_map_tail(pairs, j + 1, k);
        assert(p.drop_last() == pairs.take(j));
        assert(p.last() == pairs[j]);
    } else {
        assert(pairs.take(j) == pairs);
    }
}

impl Payload {
    /// The value of the field `key`, as the last field with that key gives it.
    pub fn get(&self, key: &str) -> (v: Option<&str>)
        ensures
            v is Some <==> self@.contains_key(key@),
            v matches Some(s) ==> s@ == self@[key@],
    {
        let k = key.to_owned();
        let ghost pv = pair_views(self.pairs@);
        let mut i: usize = self.pairs.len();
        while i > 0
            invariant
                i <= self.pairs@.len(),
                pv == pair_views(self.pairs@),
                k@ == key@,
                forall|j: int| i <= j < pv.len() ==> (#[trigger] pv[j]).0 != key@,
            decreases i,
        {
            if self.pairs[i - 1].0 == k {
                proof {
                    lemma_pairs_map_tail(pv, i as int, key@);
                    let p = pv.take(i as int);
                    assert(p.drop_last() == pv.take(i - 1));
                    assert(p.last() == pv[i - 1]);
                }
                return Some(self.pairs[i - 1].1.as_str());
            }
            i = i - 1;
        }
        proof {
            lemma_pairs_map_tail(pv, 0, key@);
            assert(pv.take(0) == Seq::<(Seq<char>, Seq<char>)>::empty());
        }
        None
    }
}

/// Whether every `&`-separated field of `payload` holds an `=`, so that
/// `read_payload` can read it.
pub fn payload_well_formed(payload: &str) -> (ok: bool)
    ensures
        ok == payload_well_formed_spec(payload@),
{
    let chars = chars_of(payload);
    let pieces = split(&chars, '&');
    let mut i: usize = 0;
    while i < pieces.len()
        invariant
            i <= pieces@.len(),
            views(pieces@) == split_spec(payload@, '&'),
            forall|j: int| 0 <= j < i ==> #[trigger] split_spec(views(pieces@)[j], '=').len() >= 2,
        decreases pieces.len() - i,
    {
        let parts = split(&pieces[i], '=');
        assert(views(pieces@)[i as int] == pieces@[i as int]@);
        if parts.len() < 2 {
            assert(views(parts@).len() == parts@.len());
            assert(split_spec(split_spec(payload@, '&')[i as int], '=').len() < 2);
            return false;
        }
        i = i + 1;
    }
    true
}

/// Reads a form body `key=value&key=value` into its fields by key.
pub fn read_payload(payload: &str) -> (body: Payload)
    requires
        payload_well_formed_spec(payload@),
    ensures
        body@ == payload_map(payload@),
{
    let chars = chars_of(payload);
    let pieces = split(&chars, '&');
    let ghost fields = fields_spec(payload@);
    let mut pairs: Vec<(String, String)> = Vec::new();
    let mut i: usize = 0;
    while i < pieces.len()
        invariant
            i <= pieces@.len(),
            views(pieces@) == split_spec(payload@, '&'),
            payload_well_formed_spec(payload@),
            fields == fields_spec(payload@),
            pair_views(pairs@) == fields.take(i as int),
        decreases pieces.len() - i,
    {
        let parts = split(&pieces[i], '=');
        assert(views(pieces@)[i as int] == pieces@[i as int]@);
        assert(split_spec(views(pieces@)[i as int], '=').len() >= 2);
        let key = string_of(&parts[0]);
        let value = string_of(&parts[1]);
        assert(views(parts@)[0] == parts@[0]@);
        assert(views(parts@)[1] == parts@[1]@);
        let ghost before = pair_views(pairs@);
        pairs.push((key, value));
        assert(fields[i as int] == (parts@[0]@, parts@[1]@));
        assert(pair_views(pairs@) == before.push(fields[i as int]));
        assert(fields.take(i + 1) == fields.take(i as int).push(fields[i as int]));
        i = i + 1;
    }
    assert(fields.take(fields.len() as int) == fields);
    Payload { pairs }
}

} // verus!
