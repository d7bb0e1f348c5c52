//! The custom resources that the operator serves.

use vstd::prelude::*;

pub mod redis;
pub mod redis_cluster;

pub use redis::Redis;
pub use redis_cluster::RedisCluster;

verus! {

/// The documents of `docs` as one YAML stream: each behind its separator.
pub open spec fn stream(docs: Seq<String>) -> Seq<char>
    decreases docs.len(),
{
    if docs.len() == 0 {
        Seq::empty()
    } else {
        stream(docs.drop_last()) + "---\n"@ + docs.last()@
    }
}

/// Joins the rendered definitions into the manifest that installs them.
pub fn render(docs: &Vec<String>) -> (out: String)
    ensures
        out@ == stream(docs@),
{
    let mut out = String::new();
    let mut i: usize = 0;
    assert(out@ =~= stream(docs@.take(0)));
    while i < docs.len()
        invariant
            i <= docs.len(),
            out@ == stream(docs@.take(i as int)),
        decreases docs.len() - i,
    {
        assert(docs@.take(i + 1).drop_last() =~= docs@.take(i as int));
        out.append("---\n");
        out.append(&docs[i]);
        i = i + 1;
    }
    assert(docs@.take(docs.len() as int) =~= docs@);
    out
}

} // verus!
