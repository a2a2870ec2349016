use vstd::prelude::*;

verus! {

/// Entry `i` of `hits` is the nearer intersection of the ray with sphere `i`, as a key
/// ordered like the distance along the ray, or `None` where the ray misses that sphere.
/// Sphere `i` is the one the ray sees: it is hit, no sphere is hit nearer, and every
/// sphere before it is hit strictly farther or missed.
pub open spec fn is_nearest(hits: Seq<Option<i32>>, i: int) -> bool {
    &&& 0 <= i < hits.len()
    &&& hits[i] is Some
    &&& forall|j: int|
        0 <= j < hits.len() && #[trigger] hits[j] is Some ==> hits[i]->0 <= hits[j]->0
    &&& forall|j: int| 0 <= j < i && #[trigger] hits[j] is Some ==> hits[i]->0 < hits[j]->0
}

/// Every sphere is missed.
pub open spec fn all_missed(hits: Seq<Option<i32>>) -> bool {
    forall|j: int| 0 <= j < hits.len() ==> #[trigger] hits[j] is None
}

/// The index of the sphere a ray sees, or `None` where it misses every sphere.
/// On equal distances the sphere that comes first wins.
pub fn nearest_hit(hits: &[Option<i32>]) -> (r: Option<usize>)
    ensures
        r is None <==> all_missed(hits@),
        r matches Some(i) ==> is_nearest(hits@, i as int),
{
    let mut best: Option<usize> = None;
    let mut best_key: i32 = 0;
    let mut i: usize = 0;
    while i < hits.len()
        invariant
            i <= hits@.len(),
            best is None ==> all_missed(hits@.take(i as int)),
            best matches Some(b) ==> is_nearest(hits@.take(i as int), b as int) && hits@[b as int]
                == Some(best_key),
        decreases hits@.len() - i,
    {
        if let Some(k) = hits[i] {
            let closer = match best {
                None => true,
                Some(_) => k < best_key,
            };
            if closer {
                best = Some(i);
                best_key = k;
            }
        }
        proof {
            let pre = hits@.take(i as int);
            let post = hits@.take(i + 1);
            assert(post =~= pre.push(hits@[i as int]));
            assert(forall|j: int| 0 <= j < i ==> post[j] == pre[j]);
        }
        i += 1;
    }
    proof {
        assert(hits@.take(i as int) =~= hits@);
    }
    best
}

/// At most one sphere is the one a ray sees.
pub proof fn lemma_nearest_unique(hits: Seq<Option<i32>>, i: int, j: int)
    requires
        is_nearest(hits, i),
        is_nearest(hits, j),
    ensures
        i == j,
{
    if i < j {
        assert(hits[i] is Some);
    } else if j < i {
        assert(hits[j] is Some);
    }
}

/// Of two spheres hit at the same distance, the later one is never the one a ray sees.
pub proof fn lemma_tie_goes_to_first(hits: Seq<Option<i32>>, i: int, j: int)
    requires
        0 <= i < j < hits.len(),
        hits[i] is Some,
        hits[i] == hits[j],
    ensures
        !is_nearest(hits, j),
{
    if is_nearest(hits, j) {
        assert(hits[i] is Some);
    }
}

} // verus!
