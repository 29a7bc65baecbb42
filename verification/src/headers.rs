//! A map of request headers from keys to values, each key held once.

use vstd::prelude::*;

verus! {

/// The map that a list of `(key, value)` entries denotes, a later entry
/// replacing an earlier one with the same key.
pub open spec fn entries_map(e: Seq<(String, String)>) -> Map<Seq<char>, Seq<char>>
    decreases e.len(),
{
    if e.len() == 0 {
        Map::empty()
    } else {
        entries_map(e.drop_last()).insert(e.last().0@, e.last().1@)
    }
}

/// No key occurs twice among the entries.
pub open spec fn keys_distinct(e: Seq<(String, String)>) -> bool {
    forall|i: int, j: int| 0 <= i < j < e.len() ==> e[i].0@ != e[j].0@
}

/// The keys of a map are the keys of its entries, and with distinct keys each
/// entry's value is the value of its key.
proof fn lemma_entries_map(e: Seq<(String, String)>)
    ensures
        entries_map(e).dom().finite(),
        forall|k: Seq<char>|
            entries_map(e).dom().contains(k) <==> exists|i: int|
                0 <= i < e.len() && (#[trigger] e[i]).0@ == k,
        keys_distinct(e) ==> forall|i: int|
            0 <= i < e.len() ==> entries_map(e)[(#[trigger] e[i]).0@] == e[i].1@,
        keys_distinct(e) ==> entries_map(e).dom().len() == e.len(),
    decreases e.len(),
{
    if e.len() > 0 {
        let p = e.drop_last();
        lemma_entries_map(p);
        assert forall|k: Seq<char>|
            entries_map(e).dom().contains(k) implies exists|i: int|
                0 <= i < e.len() && (#[trigger] e[i]).0@ == k by {
            if k == e.last().0@ {
                assert(e[e.len() - 1].0@ == k);
            } else {
                let i = choose|i: int| 0 <= i < p.len() && (#[trigger] p[i]).0@ == k;
                assert(e[i] == p[i]);
            }
        }
        assert forall|k: Seq<char>|
            (exists|i: int| 0 <= i < e.len() && (#[trigger] e[i]).0@ == k) implies entries_map(
            e,
        ).dom().contains(k) by {
            let i = choose|i: int| 0 <= i < e.len() && (#[trigger] e[i]).0@ == k;
            if i < e.len() - 1 {
                assert(p[i] == e[i]);
            }
        }
        if keys_distinct(e) {
            assert(keys_distinct(p)) by {
                assert forall|i: int, j: int| 0 <= i < j < p.len() implies p[i].0@ != p[j].0@ by {
                    assert(p[i] == e[i] && p[j] == e[j]);
                }
            }
            assert forall|i: int| 0 <= i < e.len() implies entries_map(e)[(
            #[trigger] e[i]).0@] == e[i].1@ by {
                if i < e.len() - 1 {
                    assert(p[i] == e[i]);
                    assert(e[i].0@ != e[e.len() - 1].0@);
                }
            }
            assert(!entries_map(p).dom().contains(e.last().0@)) by {
                if entries_map(p).dom().contains(e.last().0@) {
                    let i = choose|i: int| 0 <= i < p.len() && (#[trigger] p[i]).0@ == e.last().0@;
                    assert(p[i] == e[i]);
                }
            }
        }
    }
}

/// Where `key` stands among the entries.
fn position(e: &Vec<(String, String)>, key: &String) -> (r: Option<usize>)
    ensures
        match r {
            Some(i) => i < e@.len() && e@[i as int].0@ == key@,
            None => forall|j: int| 0 <= j < e@.len() ==> (#[trigger] e@[j]).0@ != key@,
        },
{
    let n = e.len();
    let mut i: usize = 0;
    while i < n
        invariant
            n == e@.len(),
            i <= n,
            forall|j: int| 0 <= j < i ==> (#[trigger] e@[j]).0@ != key@,
        decreases n - i,
    {
        if e[i].0 == *key {
            return Some(i);
        }
        i = i + 1;
    }
    None
}

/// The text of the error that `HeaderName::from_bytes` gives for `name`, or
/// `None` where it accepts it.
pub uninterp spec fn header_name_rejection(name: Seq<char>) -> Option<Seq<char>>;

/// The text of the error that `HeaderValue::from_str` gives for `value`, or
/// `None` where it accepts it.
pub uninterp spec fn header_value_rejection(value: Seq<char>) -> Option<Seq<char>>;

/// Calls `http::HeaderName::from_bytes` on the bytes of `name` (what a request
/// builder does with a `&str` key): the outcome is the one named
/// `header_name_rejection`; a rejection reads `invalid HTTP header name`, and
/// an empty name is rejected.
#[verifier::external_body]
fn check_header_name(name: &str) -> (r: Option<String>)
    ensures
        match r {
            None => header_name_rejection(name@) is None,
            Some(t) => header_name_rejection(name@) == Some(t@),
        },
        r matches Some(t) ==> t@ == "invalid HTTP header name"@,
        name@.len() == 0 ==> r is Some,
{
    match hyper::header::HeaderName::from_bytes(name.as_bytes()) {
        Ok(_) => None,
        Err(e) => Some(e.to_string()),
    }
}

/// Calls `http::HeaderValue::from_str` (what a request builder does with a
/// `&str` value): the outcome is the one named `header_value_rejection`; a
/// rejection reads `failed to parse header value`.
#[verifier::external_body]
fn check_header_value(value: &str) -> (r: Option<String>)
    ensures
        match r {
            None => header_value_rejection(value@) is None,
            Some(t) => header_value_rejection(value@) == Some(t@),
        },
        r matches Some(t) ==> t@ == "failed to parse header value"@,
{
    match hyper::header::HeaderValue::from_str(value) {
        Ok(_) => None,
        Err(e) => Some(e.to_string()),
    }
}

/// A header is accepted: both its name and its value are.
pub open spec fn header_accepted(name: Seq<char>, value: Seq<char>) -> bool {
    header_name_rejection(name) is None && header_value_rejection(value) is None
}

/// The rejection of one header: its name's, else its value's.
pub open spec fn pair_rejection(p: (Seq<char>, Seq<char>)) -> Option<Seq<char>> {
    match header_name_rejection(p.0) {
        Some(t) => Some(t),
        None => header_value_rejection(p.1),
    }
}

/// The rejection of the first header, in order, that has one.
pub open spec fn first_header_rejection(ps: Seq<(Seq<char>, Seq<char>)>) -> Option<Seq<char>>
    decreases ps.len(),
{
    if ps.len() == 0 {
        None
    } else {
        match pair_rejection(ps[0]) {
            Some(t) => Some(t),
            None => first_header_rejection(ps.drop_first()),
        }
    }
}

/// No header is rejected exactly when every header is accepted.
proof fn lemma_first_rejection_all(ps: Seq<(Seq<char>, Seq<char>)>)
    ensures
        first_header_rejection(ps) is None <==> forall|i: int|
            0 <= i < ps.len() ==> header_accepted((#[trigger] ps[i]).0, ps[i].1),
    decreases ps.len(),
{
    if ps.len() > 0 {
        lemma_first_rejection_all(ps.drop_first());
        assert forall|i: int| 0 < i < ps.len() implies ps[i] == ps.drop_first()[i - 1] by {}
        if first_header_rejection(ps) is None {
            assert forall|i: int| 0 <= i < ps.len() implies header_accepted(
                (#[trigger] ps[i]).0,
                ps[i].1,
            ) by {
                if i > 0 {
                    assert(ps[i] == ps.drop_first()[i - 1]);
                }
            }
        }
        if forall|i: int| 0 <= i < ps.len() ==> header_accepted((#[trigger] ps[i]).0, ps[i].1) {
            assert(header_accepted(ps[0].0, ps[0].1));
            assert forall|i: int| 0 <= i < ps.drop_first().len() implies header_accepted(
                (#[trigger] ps.drop_first()[i]).0,
                ps.drop_first()[i].1,
            ) by {
                assert(ps.drop_first()[i] == ps[i + 1]);
            }
        }
    }
}

/// Request headers: each key once, with the value given last for it.
#[derive(Debug)]
pub struct Headers {
    entries: Vec<(String, String)>,
}

/// The entries as text, in the order they are held.
pub open spec fn pairs_of(e: Seq<(String, String)>) -> Seq<(Seq<char>, Seq<char>)> {
    e.map_values(|p: (String, String)| (p.0@, p.1@))
}

impl View for Headers {
    type V = Map<Seq<char>, Seq<char>>;

    closed spec fn view(&self) -> Map<Seq<char>, Seq<char>> {
        entries_map(self.entries@)
    }
}

impl Headers {
    /// The `(key, value)` pairs as text, in the order `entries` gives them.
    pub closed spec fn pairs(&self) -> Seq<(Seq<char>, Seq<char>)> {
        pairs_of(self.entries@)
    }

    #[verifier::type_invariant]
    spec fn inv(self) -> bool {
        keys_distinct(self.entries@)
    }

    /// No headers.
    pub fn new() -> (h: Headers)
        ensures
            h@ == Map::<Seq<char>, Seq<char>>::empty(),
    {
        Headers { entries: Vec::new() }
    }

    /// Sets the value of `key`, replacing what it had.
    pub fn insert(&mut self, key: String, value: String)
        ensures
            final(self)@ == old(self)@.insert(key@, value@),
    {
        proof {
            use_type_invariant(&*self);
            lemma_entries_map(self.entries@);
        }
        let mut e: Vec<(String, String)> = Vec::new();
        std::mem::swap(&mut e, &mut self.entries);
        let ghost old_e = e@;
        let found = position(&e, &key);
        if let Some(i) = found {
            let ghost before = e@;
            e.set(i, (key, value));
            proof {
                lemma_entries_map(e@);
                assert(keys_distinct(e@)) by {
                    assert forall|a: int, b: int| 0 <= a < b < e@.len() implies e@[a].0@
                        != e@[b].0@ by {
                        if a != i && b != i {
                            assert(e@[a] == before[a] && e@[b] == before[b]);
                        }
                    }
                }
                assert(entries_map(e@) =~= entries_map(old_e).insert(key@, value@)) by {
                    assert forall|k: Seq<char>|
                        entries_map(old_e).insert(key@, value@).dom().contains(
                            k,
                        ) implies entries_map(e@).dom().contains(k) by {
                        if k != key@ {
                            let j = choose|j: int| 0 <= j < old_e.len() && (#[trigger] old_e[j]).0@ == k;
                            assert(e@[j] == old_e[j]);
                        } else {
                            assert(e@[i as int].0@ == k);
                        }
                    }
                    assert forall|k: Seq<char>| entries_map(e@).dom().contains(k)
                        implies entries_map(old_e).insert(key@, value@).dom().contains(k)
                        && entries_map(e@)[k] == entries_map(old_e).insert(key@, value@)[k] by {
                        let j = choose|j: int| 0 <= j < e@.len() && (#[trigger] e@[j]).0@ == k;
                        if j != i {
                            assert(e@[j] == old_e[j]);
                        }
                    }
                }
            }
        } else {
            let ghost before = e@;
            e.push((key, value));
            proof {
                assert(e@.drop_last() =~= before);
                assert(keys_distinct(e@)) by {
                    assert forall|a: int, b: int| 0 <= a < b < e@.len() implies e@[a].0@
                        != e@[b].0@ by {
                        assert(e@[a] == before[a]);
                        if b < before.len() {
                            assert(e@[b] == before[b]);
                        }
                    }
                }
            }
        }
        self.entries = e;
    }

    /// The value of `key`, if it has one.
    pub fn get(&self, key: &str) -> (r: Option<&String>)
        ensures
            match r {
                Some(v) => self@.contains_key(key@) && self@[key@] == v@,
                None => !self@.contains_key(key@),
            },
    {
        proof {
            use_type_invariant(self);
            lemma_entries_map(self.entries@);
        }
        let k = key.to_owned();
        match position(&self.entries, &k) {
            Some(i) => Some(&self.entries[i].1),
            None => None,
        }
    }

    /// The number of keys.
    pub fn len(&self) -> (n: usize)
        ensures
            n == self@.len(),
    {
        proof {
            use_type_invariant(self);
            lemma_entries_map(self.entries@);
        }
        self.entries.len()
    }

    /// The headers as `(key, value)` pairs, each key once.
    pub fn entries(&self) -> (e: &Vec<(String, String)>)
        ensures
            keys_distinct(e@),
            entries_map(e@) == self@,
            pairs_of(e@) == self.pairs(),
    {
        proof {
            use_type_invariant(self);
        }
        &self.entries
    }
}

impl Headers {
    /// The text of the first rejection among the headers, in the order
    /// `entries` gives them (for each, its name is checked before its value),
    /// or `None` where every name and value is accepted.
    pub fn first_rejection(&self) -> (r: Option<String>)
        ensures
            match first_header_rejection(self.pairs()) {
                None => r is None,
                Some(t) => r matches Some(m) && m@ == t,
            },
            r is None <==> forall|k: Seq<char>|
                #[trigger] self@.contains_key(k) ==> header_accepted(k, self@[k]),
            r matches Some(m) ==> (m@ == "invalid HTTP header name"@ || m@
                == "failed to parse header value"@),
    {
        proof {
            use_type_invariant(self);
            lemma_entries_map(self.entries@);
        }
        let ghost ps = self.pairs();
        let n = self.entries.len();
        let mut i: usize = 0;
        assert(ps.subrange(0, n as int) =~= ps);
        while i < n
            invariant
                n == self.entries@.len(),
                ps == pairs_of(self.entries@),
                i <= n,
                first_header_rejection(ps) == first_header_rejection(
                    ps.subrange(i as int, n as int),
                ),
            decreases n - i,
        {
            let k = &self.entries[i].0;
            let v = &self.entries[i].1;
            assert(ps[i as int] == (k@, v@));
            assert(ps.subrange(i as int, n as int)[0] == ps[i as int]);
            if let Some(t) = check_header_name(k.as_str()) {
                proof {
                    use_type_invariant(self);
                    lemma_entries_map(self.entries@);
                    assert(self.entries@[i as int].0@ == k@);
                    assert(self@.contains_key(k@) && self@[k@] == v@);
                    assert(!header_accepted(k@, self@[k@]));
                }
                return Some(t);
            }
            if let Some(t) = check_header_value(v.as_str()) {
                proof {
                    use_type_invariant(self);
                    lemma_entries_map(self.entries@);
                    assert(self.entries@[i as int].0@ == k@);
                    assert(self@.contains_key(k@) && self@[k@] == v@);
                    assert(!header_accepted(k@, self@[k@]));
                }
                return Some(t);
            }
            assert(ps.subrange(i as int, n as int).drop_first() =~= ps.subrange(
                i + 1,
                n as int,
            ));
            i = i + 1;
        }
        proof {
            lemma_first_rejection_all(ps);
            assert forall|k: Seq<char>| #[trigger]
                self@.contains_key(k) implies header_accepted(k, self@[k]) by {
                let j = choose|j: int|
                    0 <= j < self.entries@.len() && (#[trigger] self.entries@[j]).0@ == k;
                assert(ps[j] == (self.entries@[j].0@, self.entries@[j].1@));
            }
        }
        None
    }
}

impl Clone for Headers {
    fn clone(&self) -> (h: Headers)
        ensures
            h@ == self@,
    {
        proof {
            use_type_invariant(self);
        }
        let n = self.entries.len();
        let mut e: Vec<(String, String)> = Vec::new();
        let mut i: usize = 0;
        while i < n
            invariant
                n == self.entries@.len(),
                i <= n,
                keys_distinct(self.entries@),
                e@ == self.entries@.subrange(0, i as int),
            decreases n - i,
        {
            let k = self.entries[i].0.clone();
            let v = self.entries[i].1.clone();
            e.push((k, v));
            assert(e@ =~= self.entries@.subrange(0, i + 1));
            i = i + 1;
        }
        assert(e@ =~= self.entries@);
        Headers { entries: e }
    }
}

/// After `insert(key, value)` (whose `ensures` relates `before` and `after`
/// so), `get(key)` finds `value`, and `get` of any other key finds what it
/// found before.
pub proof fn law_lookup_after_insert(
    before: Headers,
    after: Headers,
    key: Seq<char>,
    value: Seq<char>,
    other: Seq<char>,
)
    requires
        after@ == before@.insert(key, value),
        other != key,
    ensures
        after@.contains_key(key) && after@[key] == value,
        after@.contains_key(other) == before@.contains_key(other),
        before@.contains_key(other) ==> after@[other] == before@[other],
{
}

} // verus!
