use vstd::prelude::*;

verus! {

/// Which side of a closed surface a ray started from when it hit the surface.
#[derive(Clone, Copy, Debug, PartialEq, Eq, Structural)]
pub enum Side {
    Outer,
    Inner,
}

impl Side {
    /// True when the ray came from outside the surface.
    pub fn outer(&self) -> (r: bool)
        ensures
            r == (*self == Side::Outer),
    {
        match self {
            Side::Outer => true,
            Side::Inner => false,
        }
    }
}

/// What `later` answers for `a` and `b`.
pub open spec fn answer<K, G: Fn(K, K) -> bool>(later: G, a: K, b: K) -> bool {
    choose|r: bool| later.ensures((a, b), r)
}

/// `later` can be asked of any two keys and always gives the same answer for
/// the same keys.
pub open spec fn is_comparison<K, G: Fn(K, K) -> bool>(later: G) -> bool {
    &&& forall|a: K, b: K| #[trigger] later.requires((a, b))
    &&& forall|a: K, b: K, r: bool| #[trigger] later.ensures((a, b), r) ==> r == answer(later, a, b)
}

/// The nearest of the first `n` hits, scanning in order: a hit replaces the
/// one kept so far only when the kept one is strictly `later`; on a tie, or
/// when the two cannot be compared, the earlier primitive stays.
pub open spec fn nearest_of<K, G: Fn(K, K) -> bool>(
    hits: Seq<Option<K>>,
    later: G,
    n: int,
) -> Option<(usize, K)>
    decreases n,
{
    if n <= 0 {
        None
    } else {
        let kept = nearest_of(hits, later, n - 1);
        match hits[n - 1] {
            None => kept,
            Some(k) => match kept {
                None => Some(((n - 1) as usize, k)),
                Some((i, m)) => if answer(later, m, k) {
                    Some(((n - 1) as usize, k))
                } else {
                    kept
                },
            },
        }
    }
}

proof fn lemma_nearest_of_none<K, G: Fn(K, K) -> bool>(hits: Seq<Option<K>>, later: G, n: int)
    requires
        0 <= n <= hits.len(),
        n <= usize::MAX,
    ensures
        nearest_of(hits, later, n) is None <==> forall|i: int| 0 <= i < n ==> #[trigger] hits[i] is None,
        nearest_of(hits, later, n) matches Some((i, k)) ==> i < n && hits[i as int] == Some(k),
    decreases n,
{
    if n > 0 {
        lemma_nearest_of_none(hits, later, n - 1);
    }
}

/// Picks the nearest hit among `hits`, one entry per primitive (`None` where
/// the ray misses it), and returns its index and key. `later(a, b)` tells
/// whether `a` lies strictly beyond `b` along the ray. No hit gives `None`.
pub fn nearest_hit<K: Copy, G: Fn(K, K) -> bool>(hits: &Vec<Option<K>>, later: G) -> (r: Option<
    (usize, K),
>)
    requires
        is_comparison(later),
    ensures
        r == nearest_of(hits@, later, hits@.len() as int),
        r is None <==> forall|i: int| 0 <= i < hits@.len() ==> #[trigger] hits@[i] is None,
        r matches Some((i, k)) ==> i < hits@.len() && hits@[i as int] == Some(k),
{
    let mut kept: Option<(usize, K)> = None;
    let mut j: usize = 0;
    while j < hits.len()
        invariant
            j <= hits@.len(),
            is_comparison(later),
            kept == nearest_of(hits@, later, j as int),
        decreases hits@.len() - j,
    {
        match hits[j] {
            None => {},
            Some(k) => {
                match kept {
                    None => {
                        kept = Some((j, k));
                    },
                    Some((_, m)) => {
                        if later(m, k) {
                            kept = Some((j, k));
                        }
                    },
                }
            },
        }
        j = j + 1;
    }
    proof {
        lemma_nearest_of_none(hits@, later, hits@.len() as int);
    }
    kept
}

} // verus!
