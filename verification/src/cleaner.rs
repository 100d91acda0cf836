//! Which stored objects the cleanup job deletes.

use vstd::prelude::*;

verus! {

/// A point in time: seconds and nanoseconds since the Unix epoch.
#[derive(Clone, Copy, PartialEq, Eq, Debug)]
pub struct Timestamp {
    pub secs: i64,
    pub nanos: u32,
}

/// `a` is earlier than `b`.
pub open spec fn earlier(a: Timestamp, b: Timestamp) -> bool {
    a.secs < b.secs || (a.secs == b.secs && a.nanos < b.nanos)
}

/// An object listed in the bucket.
pub struct StoredObject {
    pub key: Option<String>,
    pub last_modified: Option<Timestamp>,
}

/// The keys of the objects that have a key and a modification time earlier
/// than `threshold`, in listing order.
pub open spec fn expired_spec(objs: Seq<StoredObject>, threshold: Timestamp) -> Seq<Seq<char>>
    decreases objs.len(),
{
    if objs.len() == 0 {
        Seq::<Seq<char>>::empty()
    } else {
        let r = expired_spec(objs.drop_last(), threshold);
        let o = objs.last();
        match (o.key, o.last_modified) {
            (Some(k), Some(t)) => if earlier(t, threshold) { r.push(k@) } else { r },
            _ => r,
        }
    }
}

/// The keys of the listed objects older than `threshold`.
pub fn expired_keys(objs: &Vec<StoredObject>, threshold: Timestamp) -> (r: Vec<String>)
    ensures
        crate::text::string_views(r@) == expired_spec(objs@, threshold),
{
    let mut out: Vec<String> = Vec::new();
    let mut i: usize = 0;
    while i < objs.len()
        invariant
            i <= objs@.len(),
            crate::text::string_views(out@) == expired_spec(objs@.take(i as int), threshold),
        decreases objs@.len() - i,
    {
        let ghost before = out@;
        proof {
            assert(objs@.take(i + 1).drop_last() =~= objs@.take(i as int));
        }
        let o = &objs[i];
        match (&o.key, &o.last_modified) {
            (Some(k), Some(t)) => {
                if t.secs < threshold.secs || (t.secs == threshold.secs && t.nanos < threshold.nanos) {
                    out.push(k.clone());
                    proof {
                        assert(crate::text::string_views(out@) =~= crate::text::string_views(before).push(k@));
                    }
                }
            },
            _ => {},
        }
        i = i + 1;
    }
    proof {
        assert(objs@.take(objs@.len() as int) =~= objs@);
    }
    out
}

/// Whether object `o` has key `k` and was last modified strictly before
/// `th`: seconds first, nanoseconds only to break a tie in seconds.
pub open spec fn keyed_before(o: StoredObject, k: Seq<char>, th: Timestamp) -> bool {
    &&& o.key matches Some(kk) && kk@ == k
    &&& o.last_modified matches Some(t) && (t.secs < th.secs || (t.secs == th.secs && t.nanos < th.nanos))
}

/// A key is chosen for deletion exactly when some listed object has that
/// key and was last modified before the threshold (an object modified in an
/// earlier second always is, whatever its nanoseconds); no more keys are
/// chosen than objects are listed.
pub proof fn lemma_expired_members(objs: Seq<StoredObject>, th: Timestamp)
    ensures
        forall|k: Seq<char>| #[trigger] expired_spec(objs, th).contains(k)
            <==> exists|i: int| 0 <= i < objs.len() && keyed_before(#[trigger] objs[i], k, th),
        expired_spec(objs, th).len() <= objs.len(),
    decreases objs.len(),
{
    if objs.len() > 0 {
        let prev = objs.drop_last();
        lemma_expired_members(prev, th);
        let r = expired_spec(prev, th);
        let o = objs.last();
        assert forall|k: Seq<char>| #[trigger] expired_spec(objs, th).contains(k)
            <==> exists|i: int| 0 <= i < objs.len() && keyed_before(#[trigger] objs[i], k, th) by {
            if expired_spec(objs, th).contains(k) {
                if r.contains(k) {
                    let i = choose|i: int| 0 <= i < prev.len() && keyed_before(#[trigger] prev[i], k, th);
                    assert(objs[i] == prev[i]);
                } else {
                    let j = choose|j: int| 0 <= j < expired_spec(objs, th).len() && expired_spec(objs, th)[j] == k;
                    assert(j == r.len());
                    assert(objs[objs.len() - 1] == o);
                    assert(keyed_before(objs[objs.len() - 1], k, th));
                }
            }
            if exists|i: int| 0 <= i < objs.len() && keyed_before(#[trigger] objs[i], k, th) {
                let i = choose|i: int| 0 <= i < objs.len() && keyed_before(#[trigger] objs[i], k, th);
                if i < objs.len() - 1 {
                    assert(prev[i] == objs[i]);
                    assert(r.contains(k));
                    let j = choose|j: int| 0 <= j < r.len() && r[j] == k;
                    assert(expired_spec(objs, th)[j] == k);
                } else {
                    assert(objs[i] == o);
                    let res = expired_spec(objs, th);
                    assert(res[res.len() - 1] == k);
                }
            }
        }
    }
}

} // verus!
