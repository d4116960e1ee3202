//! A protocol message: a mapping of header name to header value, plus the
//! accumulated free-text body of the lines that carried no separator.
//!
//! Header names are kept in first-occurrence order; storing a name that is
//! already present overwrites its value in place, so the last occurrence of
//! a duplicate header wins.

use vstd::prelude::*;
use vstd::utf8::encode_utf8;
use crate::text::bytes_eq;

verus! {

/// The header that marks an unsolicited event notification.
pub open spec fn event_key() -> Seq<u8> {
    encode_utf8("Event"@)
}

/// The mathematical content of a [`Message`]: the header entries in order,
/// and the body bytes.
pub ghost struct MessageView {
    pub headers: Seq<(Seq<u8>, Seq<u8>)>,
    pub rest: Seq<u8>,
}

/// The value bound to `k`, taking the latest entry when several share the
/// name (entries kept well-formed never do).
pub open spec fn lookup(h: Seq<(Seq<u8>, Seq<u8>)>, k: Seq<u8>) -> Option<Seq<u8>>
    decreases h.len(),
{
    if h.len() == 0 {
        None
    } else if h.last().0 == k {
        Some(h.last().1)
    } else {
        lookup(h.drop_last(), k)
    }
}

/// Binding of `k` to `v`: the value of an existing entry for `k` is
/// replaced in place, otherwise the new entry is appended.
pub open spec fn spec_insert(h: Seq<(Seq<u8>, Seq<u8>)>, k: Seq<u8>, v: Seq<u8>) -> Seq<
    (Seq<u8>, Seq<u8>),
>
    decreases h.len(),
{
    if h.len() == 0 {
        seq![(k, v)]
    } else if h.first().0 == k {
        seq![(k, v)] + h.drop_first()
    } else {
        seq![h.first()] + spec_insert(h.drop_first(), k, v)
    }
}

/// Header entries are well formed when no name occurs twice.
pub open spec fn wf_headers(h: Seq<(Seq<u8>, Seq<u8>)>) -> bool {
    forall|i: int, j: int| 0 <= i < j < h.len() ==> h[i].0 != h[j].0
}

/// Looking a name up in concatenated entries prefers the later block.
pub proof fn lemma_lookup_append(a: Seq<(Seq<u8>, Seq<u8>)>, b: Seq<(Seq<u8>, Seq<u8>)>, k: Seq<u8>)
    ensures
        lookup(a + b, k) == if lookup(b, k) is Some {
            lookup(b, k)
        } else {
            lookup(a, k)
        },
    decreases b.len(),
{
    if b.len() == 0 {
        assert(a + b =~= a);
    } else {
        assert((a + b).last() == b.last());
        if b.last().0 != k {
            assert((a + b).drop_last() =~= a + b.drop_last());
            lemma_lookup_append(a, b.drop_last(), k);
        }
    }
}

/// A name is bound exactly when one of the entries carries it.
pub proof fn lemma_lookup_some(h: Seq<(Seq<u8>, Seq<u8>)>, k: Seq<u8>)
    ensures
        lookup(h, k) is Some <==> exists|i: int| 0 <= i < h.len() && h[i].0 == k,
    decreases h.len(),
{
    if h.len() > 0 {
        lemma_lookup_some(h.drop_last(), k);
        if h.last().0 == k {
        } else if lookup(h.drop_last(), k) is Some {
            let i = choose|i: int| 0 <= i < h.drop_last().len() && h.drop_last()[i].0 == k;
            assert(h[i].0 == k);
        } else {
            assert forall|i: int| 0 <= i < h.len() implies h[i].0 != k by {
                if i < h.len() - 1 {
                    assert(h.drop_last()[i].0 != k);
                }
            }
        }
    }
}

/// Dropping the first entry keeps the remaining names distinct.
pub proof fn lemma_wf_drop_first(h: Seq<(Seq<u8>, Seq<u8>)>)
    requires
        wf_headers(h),
        h.len() > 0,
    ensures
        wf_headers(h.drop_first()),
{
    assert forall|i: int, j: int| 0 <= i < j < h.drop_first().len() implies h.drop_first()[i].0
        != h.drop_first()[j].0 by {
        assert(h[i + 1].0 != h[j + 1].0);
    }
}

/// In well-formed entries, the entry at `i` decides the lookup of its name.
pub proof fn lemma_lookup_at(h: Seq<(Seq<u8>, Seq<u8>)>, k: Seq<u8>, i: int)
    requires
        wf_headers(h),
        0 <= i < h.len(),
        h[i].0 == k,
    ensures
        lookup(h, k) == Some(h[i].1),
    decreases h.len(),
{
    if i == h.len() - 1 {
    } else {
        assert(h.last().0 != k);
        assert(h.drop_last()[i] == h[i]);
        lemma_lookup_at(h.drop_last(), k, i);
    }
}

/// Inserting binds the inserted name to the inserted value.
pub proof fn lemma_lookup_insert(h: Seq<(Seq<u8>, Seq<u8>)>, k: Seq<u8>, v: Seq<u8>)
    requires
        wf_headers(h),
    ensures
        lookup(spec_insert(h, k, v), k) == Some(v),
    decreases h.len(),
{
    if h.len() == 0 {
    } else if h.first().0 == k {
        assert forall|i: int| 0 <= i < h.drop_first().len() implies h.drop_first()[i].0 != k by {
            assert(h[i + 1].0 != h[0].0);
        }
        lemma_lookup_some(h.drop_first(), k);
        lemma_lookup_append(seq![(k, v)], h.drop_first(), k);
        assert(lookup(seq![(k, v)], k) == Some(v));
    } else {
        lemma_wf_drop_first(h);
        lemma_lookup_insert(h.drop_first(), k, v);
        lemma_lookup_append(seq![h.first()], spec_insert(h.drop_first(), k, v), k);
    }
}

/// Inserting one name leaves every other name's binding alone.
pub proof fn lemma_lookup_insert_other(
    h: Seq<(Seq<u8>, Seq<u8>)>,
    k: Seq<u8>,
    v: Seq<u8>,
    k2: Seq<u8>,
)
    requires
        k2 != k,
    ensures
        lookup(spec_insert(h, k, v), k2) == lookup(h, k2),
    decreases h.len(),
{
    if h.len() == 0 {
        assert(lookup(spec_insert(h, k, v), k2) == lookup(seq![(k, v)].drop_last(), k2));
    } else if h.first().0 == k {
        lemma_lookup_append(seq![(k, v)], h.drop_first(), k2);
        lemma_lookup_append(seq![h.first()], h.drop_first(), k2);
        assert(seq![h.first()] + h.drop_first() =~= h);
        assert(lookup(seq![(k, v)], k2) == lookup(seq![(k, v)].drop_last(), k2));
        assert(lookup(seq![h.first()], k2) == lookup(seq![h.first()].drop_last(), k2));
    } else {
        lemma_lookup_insert_other(h.drop_first(), k, v, k2);
        lemma_lookup_append(seq![h.first()], spec_insert(h.drop_first(), k, v), k2);
        lemma_lookup_append(seq![h.first()], h.drop_first(), k2);
        assert(seq![h.first()] + h.drop_first() =~= h);
    }
}

/// The names present after an insert are those present before plus the
/// inserted one.
pub proof fn lemma_insert_keys(h: Seq<(Seq<u8>, Seq<u8>)>, k: Seq<u8>, v: Seq<u8>, x: Seq<u8>)
    ensures
        (exists|i: int| 0 <= i < spec_insert(h, k, v).len() && spec_insert(h, k, v)[i].0 == x)
            <==> (x == k || exists|i: int| 0 <= i < h.len() && h[i].0 == x),
    decreases h.len(),
{
    let r = spec_insert(h, k, v);
    if h.len() == 0 {
        assert(r[0].0 == k);
    } else if h.first().0 == k {
        assert forall|i: int| 0 <= i < r.len() && r[i].0 == x implies (x == k || exists|j: int|
            0 <= j < h.len() && h[j].0 == x) by {
            if i > 0 {
                assert(h[i].0 == x);
            }
        }
        if x == k {
            assert(r[0].0 == x);
        } else if exists|i: int| 0 <= i < h.len() && h[i].0 == x {
            let i = choose|i: int| 0 <= i < h.len() && h[i].0 == x;
            assert(i > 0);
            assert(r[i].0 == x);
        }
    } else {
        lemma_insert_keys(h.drop_first(), k, v, x);
        let rr = spec_insert(h.drop_first(), k, v);
        assert forall|i: int| 0 <= i < r.len() && r[i].0 == x implies (x == k || exists|j: int|
            0 <= j < h.len() && h[j].0 == x) by {
            if i == 0 {
                assert(h[0].0 == x);
            } else {
                assert(rr[i - 1].0 == x);
                if x != k {
                    let j = choose|j: int|
                        0 <= j < h.drop_first().len() && h.drop_first()[j].0 == x;
                    assert(h[j + 1].0 == x);
                }
            }
        }
        if x == k {
            let i = choose|i: int| 0 <= i < rr.len() && rr[i].0 == x;
            assert(r[i + 1].0 == x);
        } else if exists|i: int| 0 <= i < h.len() && h[i].0 == x {
            let i = choose|i: int| 0 <= i < h.len() && h[i].0 == x;
            if i == 0 {
                assert(r[0].0 == x);
            } else {
                assert(h.drop_first()[i - 1].0 == x);
                let j = choose|j: int| 0 <= j < rr.len() && rr[j].0 == x;
                assert(r[j + 1].0 == x);
            }
        }
    }
}

/// Inserting preserves well-formedness.
pub proof fn lemma_insert_wf(h: Seq<(Seq<u8>, Seq<u8>)>, k: Seq<u8>, v: Seq<u8>)
    requires
        wf_headers(h),
    ensures
        wf_headers(spec_insert(h, k, v)),
    decreases h.len(),
{
    let r = spec_insert(h, k, v);
    if h.len() == 0 {
    } else if h.first().0 == k {
        assert forall|i: int, j: int| 0 <= i < j < r.len() implies r[i].0 != r[j].0 by {
            if i == 0 {
                assert(r[j] == h[j]);
                assert(h[0].0 != h[j].0);
            } else {
                assert(r[i] == h[i] && r[j] == h[j]);
            }
        }
    } else {
        lemma_wf_drop_first(h);
        lemma_insert_wf(h.drop_first(), k, v);
        let rr = spec_insert(h.drop_first(), k, v);
        assert forall|i: int, j: int| 0 <= i < j < r.len() implies r[i].0 != r[j].0 by {
            if i == 0 {
                assert(r[j].0 == rr[j - 1].0);
                lemma_insert_keys(h.drop_first(), k, v, r[j].0);
                if r[j].0 == h[0].0 {
                    if r[j].0 == k {
                    } else {
                        let m = choose|m: int|
                            0 <= m < h.drop_first().len() && h.drop_first()[m].0 == r[j].0;
                        assert(h[m + 1].0 == h[0].0);
                    }
                }
            } else {
                assert(r[i].0 == rr[i - 1].0 && r[j].0 == rr[j - 1].0);
            }
        }
    }
}

/// One protocol frame: the parsed headers and the free-text body.
pub struct Message {
    headers: Vec<(Vec<u8>, Vec<u8>)>,
    rest: Vec<u8>,
}

impl View for Message {
    type V = MessageView;

    closed spec fn view(&self) -> MessageView {
        MessageView {
            headers: Seq::new(
                self.headers@.len(),
                |i: int| (self.headers@[i].0@, self.headers@[i].1@),
            ),
            rest: self.rest@,
        }
    }
}

impl Message {
    /// No header name occurs twice.
    pub open spec fn wf(&self) -> bool {
        wf_headers(self@.headers)
    }

    /// An empty message: no headers, empty body.
    pub fn new() -> (r: Message)
        ensures
            r@.headers == Seq::<(Seq<u8>, Seq<u8>)>::empty(),
            r@.rest == Seq::<u8>::empty(),
            r.wf(),
    {
        let r = Message { headers: Vec::new(), rest: Vec::new() };
        proof {
            assert(r@.headers =~= Seq::<(Seq<u8>, Seq<u8>)>::empty());
        }
        r
    }

    /// Binds `name` to `value`; an existing entry of the same name is
    /// overwritten in place.
    pub fn insert_header(&mut self, name: Vec<u8>, value: Vec<u8>)
        requires
            old(self).wf(),
        ensures
            final(self)@.headers == spec_insert(old(self)@.headers, name@, value@),
            final(self)@.rest == old(self)@.rest,
            final(self).wf(),
    {
        let ghost h0 = self@.headers;
        let n = self.headers.len();
        let mut i: usize = 0;
        while i < n
            invariant
                0 <= i <= n,
                n == self.headers.len(),
                self@.headers == h0,
                old(self).wf(),
                self@ == old(self)@,
                forall|k: int| 0 <= k < i ==> h0[k].0 != name@,
            decreases n - i,
        {
            if bytes_eq(self.headers[i].0.as_slice(), name.as_slice()) {
                assert(h0[i as int].0 == name@);
                let e = vstd::std_specs::vec::vec_index_mut(&mut self.headers, i);
                *e = (name, value);
                proof {
                    lemma_insert_found(h0, name@, value@, i as int);
                    assert(self@.headers =~= spec_insert(h0, name@, value@));
                    lemma_insert_wf(h0, name@, value@);
                }
                return ;
            }
            i = i + 1;
        }
        self.headers.push((name, value));
        proof {
            lemma_insert_missing(h0, name@, value@);
            assert(self@.headers =~= spec_insert(h0, name@, value@));
            lemma_insert_wf(h0, name@, value@);
        }
    }

    /// Appends a line that carried no separator to the body.
    pub fn append_rest(&mut self, line: &[u8])
        ensures
            final(self)@.rest == old(self)@.rest + line@,
            final(self)@.headers == old(self)@.headers,
    {
        let mut k: usize = 0;
        let n = line.len();
        while k < n
            invariant
                0 <= k <= n,
                n == line@.len(),
                self@.rest =~= old(self)@.rest + line@.take(k as int),
                self@.headers == old(self)@.headers,
            decreases n - k,
        {
            let b = line[k];
            self.rest.push(b);
            proof {
                assert(old(self)@.rest + line@.take(k + 1) =~= (old(self)@.rest + line@.take(
                    k as int,
                )).push(line@[k as int]));
            }
            k = k + 1;
        }
        proof {
            assert(line@.take(n as int) =~= line@);
        }
    }

    /// The value bound to `name`, if any.
    pub fn get_header(&self, name: &[u8]) -> (r: Option<&Vec<u8>>)
        requires
            self.wf(),
        ensures
            match r {
                Some(v) => lookup(self@.headers, name@) == Some(v@),
                None => lookup(self@.headers, name@) is None,
            },
    {
        let n = self.headers.len();
        let mut i: usize = 0;
        while i < n
            invariant
                0 <= i <= n,
                n == self.headers.len(),
                self.wf(),
                forall|k: int| 0 <= k < i ==> self@.headers[k].0 != name@,
            decreases n - i,
        {
            if bytes_eq(self.headers[i].0.as_slice(), name) {
                proof {
                    assert(self@.headers[i as int].0 == name@);
                    lemma_lookup_at(self@.headers, name@, i as int);
                }
                return Some(&self.headers[i].1);
            }
            i = i + 1;
        }
        proof {
            lemma_lookup_some(self@.headers, name@);
        }
        None
    }

    /// Whether `name` is bound.
    pub fn contains_header(&self, name: &[u8]) -> (r: bool)
        requires
            self.wf(),
        ensures
            r == (lookup(self@.headers, name@) is Some),
    {
        self.get_header(name).is_some()
    }

    /// How many distinct headers the message holds.
    pub fn header_count(&self) -> (r: usize)
        ensures
            r == self@.headers.len(),
    {
        self.headers.len()
    }

    /// The header entry at position `i`, in first-occurrence order.
    pub fn header_at(&self, i: usize) -> (r: (&Vec<u8>, &Vec<u8>))
        requires
            i < self@.headers.len(),
        ensures
            r.0@ == self@.headers[i as int].0,
            r.1@ == self@.headers[i as int].1,
    {
        (&self.headers[i].0, &self.headers[i].1)
    }

    /// The free-text body.
    pub fn rest(&self) -> (r: &Vec<u8>)
        ensures
            r@ == self@.rest,
    {
        &self.rest
    }
}

/// When the first entry carrying `k` stands at `i`, inserting updates
/// exactly that entry.
proof fn lemma_insert_found(h: Seq<(Seq<u8>, Seq<u8>)>, k: Seq<u8>, v: Seq<u8>, i: int)
    requires
        0 <= i < h.len(),
        h[i].0 == k,
        forall|j: int| 0 <= j < i ==> h[j].0 != k,
    ensures
        spec_insert(h, k, v) == h.update(i, (k, v)),
    decreases i,
{
    if i == 0 {
        assert(seq![(k, v)] + h.drop_first() =~= h.update(0, (k, v)));
    } else {
        assert(h.first().0 != k);
        assert(forall|j: int|
            0 <= j < i - 1 ==> h.drop_first()[j].0 == h[j + 1].0 && h[j + 1].0 != k);
        assert(h.drop_first()[i - 1].0 == k);
        lemma_insert_found(h.drop_first(), k, v, i - 1);
        assert(seq![h.first()] + h.drop_first().update(i - 1, (k, v)) =~= h.update(i, (k, v)));
    }
}

/// When no entry carries `k`, inserting appends a new entry.
proof fn lemma_insert_missing(h: Seq<(Seq<u8>, Seq<u8>)>, k: Seq<u8>, v: Seq<u8>)
    requires
        forall|j: int| 0 <= j < h.len() ==> h[j].0 != k,
    ensures
        spec_insert(h, k, v) == h.push((k, v)),
    decreases h.len(),
{
    if h.len() == 0 {
        assert(spec_insert(h, k, v) =~= h.push((k, v)));
    } else {
        assert(forall|j: int|
            0 <= j < h.drop_first().len() ==> h.drop_first()[j].0 == h[j + 1].0 && h[j + 1].0
                != k);
        lemma_insert_missing(h.drop_first(), k, v);
        assert(seq![h.first()] + h.drop_first().push((k, v)) =~= h.push((k, v)));
    }
}

} // verus!
