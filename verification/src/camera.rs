//! Camera resolution selection policy.
//!
//! A camera advertises modes as pairs of a resolution and the list of
//! framerates available at it. The policy: find the highest advertised
//! framerate, keep the resolutions that offer it, and start at the
//! numerically smallest of those — width first, then height. The full
//! eligible list, sorted ascending, is what the pipeline publishes once
//! for the resolution dropdown.

use vstd::prelude::*;

verus! {

/// A camera resolution in pixels. Values are opaque to the ring; the
/// pipeline only selects and forwards them.
#[derive(Clone, Copy, PartialEq, Eq, Structural, Debug)]
pub struct Resolution {
    pub x: u32,
    pub y: u32,
}

/// Strict resolution order: width first, then height.
pub open spec fn res_lt(a: Resolution, b: Resolution) -> bool {
    a.x < b.x || (a.x == b.x && a.y < b.y)
}

/// Non-strict resolution order: width first, then height.
pub open spec fn res_le(a: Resolution, b: Resolution) -> bool {
    res_lt(a, b) || a == b
}

/// Some advertised mode lists framerate `f`.
pub open spec fn lists_rate(pairs: Seq<(Resolution, Vec<u32>)>, f: u32) -> bool {
    exists|i: int, j: int|
        0 <= i < pairs.len() && 0 <= j < pairs[i].1@.len() && pairs[i].1@[j] == f
}

/// `f` is the highest framerate any advertised mode lists.
pub open spec fn is_max_rate(pairs: Seq<(Resolution, Vec<u32>)>, f: u32) -> bool {
    lists_rate(pairs, f) && forall|g: u32| #[trigger] lists_rate(pairs, g) ==> g <= f
}

/// Resolution `e` is eligible at framerate `f`: some mode advertises
/// `e` with `f` among its framerates.
pub open spec fn eligible_at(pairs: Seq<(Resolution, Vec<u32>)>, e: Resolution, f: u32) -> bool {
    exists|i: int| 0 <= i < pairs.len() && (#[trigger] pairs[i]).0 == e && pairs[i].1@.contains(f)
}

/// Whether `rates` lists `f`.
fn contains_rate(rates: &Vec<u32>, f: u32) -> (found: bool)
    ensures
        found == rates@.contains(f),
{
    let mut j: usize = 0;
    while j < rates.len()
        invariant
            j <= rates@.len(),
            forall|k: int| 0 <= k < j ==> rates@[k] != f,
        decreases rates@.len() - j,
    {
        if rates[j] == f {
            return true;
        }
        j = j + 1;
    }
    false
}

/// The highest framerate any mode advertises, if any mode advertises
/// one at all.
fn max_rate(pairs: &Vec<(Resolution, Vec<u32>)>) -> (best: Option<u32>)
    ensures
        match best {
            Some(m) => is_max_rate(pairs@, m),
            None => forall|f: u32| !lists_rate(pairs@, f),
        },
{
    let mut best: Option<u32> = None;
    let mut i: usize = 0;
    while i < pairs.len()
        invariant
            i <= pairs@.len(),
            match best {
                Some(m) => exists|a: int, b: int|
                    0 <= a < i && 0 <= b < pairs@[a].1@.len() && pairs@[a].1@[b] == m,
                None => true,
            },
            forall|a: int, b: int|
                0 <= a < i && 0 <= b < pairs@[a].1@.len() ==> #[trigger] pairs@[a].1@[b]
                    <= best_or_zero(best),
            best.is_none() ==> forall|a: int|
                0 <= a < i ==> (#[trigger] pairs@[a]).1@.len() == 0,
        decreases pairs@.len() - i,
    {
        let rates = &pairs[i].1;
        let mut j: usize = 0;
        while j < rates.len()
            invariant
                j <= rates@.len(),
                rates == &pairs@[i as int].1,
                i < pairs@.len(),
                match best {
                    Some(m) => exists|a: int, b: int|
                        0 <= a <= i && 0 <= b < pairs@[a].1@.len() && pairs@[a].1@[b] == m,
                    None => true,
                },
                forall|a: int, b: int|
                    0 <= a < i && 0 <= b < pairs@[a].1@.len() ==> #[trigger] pairs@[a].1@[b]
                        <= best_or_zero(best),
                forall|b: int| 0 <= b < j ==> #[trigger] rates@[b] <= best_or_zero(best),
                best.is_none() ==> forall|a: int|
                    0 <= a < i ==> (#[trigger] pairs@[a]).1@.len() == 0,
                best.is_none() ==> j == 0,
            decreases rates@.len() - j,
        {
            let candidate = rates[j];
            let better = match best {
                Some(m) => candidate > m,
                None => true,
            };
            if better {
                best = Some(candidate);
            }
            j = j + 1;
        }
        i = i + 1;
    }
    best
}

/// `best`'s value, or zero while nothing has been seen. Zero works as
/// the neutral floor because framerates are unsigned.
spec fn best_or_zero(best: Option<u32>) -> u32 {
    match best {
        Some(m) => m,
        None => 0,
    }
}

/// Picks the initial camera resolution: the numerically smallest
/// resolution among those advertised with the highest framerate, or
/// zero-by-zero when no mode advertises any framerate at all.
pub fn choose_resolution(pairs: &Vec<(Resolution, Vec<u32>)>) -> (res: Resolution)
    ensures
        (forall|f: u32| !lists_rate(pairs@, f)) ==> res == (Resolution { x: 0, y: 0 }),
        forall|f: u32|
            is_max_rate(pairs@, f) ==> eligible_at(pairs@, res, f) && (forall|e: Resolution|
                eligible_at(pairs@, e, f) ==> res_le(res, e)),
{
    let m = match max_rate(pairs) {
        None => {
            return Resolution { x: 0, y: 0 };
        },
        Some(m) => m,
    };
    let mut best: Option<Resolution> = None;
    let mut i: usize = 0;
    while i < pairs.len()
        invariant
            i <= pairs@.len(),
            match best {
                Some(b) => exists|a: int|
                    0 <= a < i && (#[trigger] pairs@[a]).0 == b && pairs@[a].1@.contains(m),
                None => forall|a: int| 0 <= a < i ==> !(#[trigger] pairs@[a]).1@.contains(m),
            },
            forall|a: int|
                0 <= a < i && (#[trigger] pairs@[a]).1@.contains(m) ==> res_le(
                    best_or_default(best),
                    pairs@[a].0,
                ),
        decreases pairs@.len() - i,
    {
        if contains_rate(&pairs[i].1, m) {
            let candidate = pairs[i].0;
            let replace = match &best {
                Some(b) => candidate.x < b.x || (candidate.x == b.x && candidate.y < b.y),
                None => true,
            };
            if replace {
                best = Some(candidate);
            }
        }
        i = i + 1;
    }
    match best {
        Some(b) => {
            proof {
                assert forall|f: u32| is_max_rate(pairs@, f) implies f == m by {
                    assert(lists_rate(pairs@, f));
                    assert(lists_rate(pairs@, m));
                }
            }
            b
        },
        None => {
            proof {
                assert(lists_rate(pairs@, m));
                assert(false);
            }
            Resolution { x: 0, y: 0 }
        },
    }
}

/// `best`'s value, or zero-by-zero while nothing has been seen.
spec fn best_or_default(best: Option<Resolution>) -> Resolution {
    match best {
        Some(b) => b,
        None => Resolution { x: 0, y: 0 },
    }
}

/// `e` is eligible at `f` within the first `k` modes.
spec fn eligible_prefix(pairs: Seq<(Resolution, Vec<u32>)>, e: Resolution, f: u32, k: int) -> bool {
    exists|a: int| 0 <= a < k && (#[trigger] pairs[a]).0 == e && pairs[a].1@.contains(f)
}

/// Whether `a` sorts strictly before `b`: width first, then height.
fn res_before(a: &Resolution, b: &Resolution) -> (lt: bool)
    ensures
        lt == res_lt(*a, *b),
{
    a.x < b.x || (a.x == b.x && a.y < b.y)
}

/// The resolutions advertised with the highest framerate, in strictly
/// ascending order: the list the pipeline publishes once for the
/// resolution dropdown. Modes come from a map keyed by resolution, so
/// no two list the same one.
pub fn eligible_resolutions(pairs: &Vec<(Resolution, Vec<u32>)>) -> (out: Vec<Resolution>)
    requires
        forall|i: int, j: int|
            0 <= i < j < pairs@.len() ==> (#[trigger] pairs@[i]).0 != (#[trigger] pairs@[j]).0,
    ensures
        forall|i: int, j: int| 0 <= i < j < out@.len() ==> res_lt(#[trigger] out@[i], #[trigger] out@[j]),
        (forall|f: u32| !lists_rate(pairs@, f)) ==> out@.len() == 0,
        forall|f: u32|
            is_max_rate(pairs@, f) ==> (forall|e: Resolution|
                #[trigger] out@.contains(e) <==> eligible_at(pairs@, e, f)),
{
    let m = match max_rate(pairs) {
        None => {
            let out: Vec<Resolution> = Vec::new();
            proof {
                assert forall|f: u32| is_max_rate(pairs@, f) implies false by {
                    assert(lists_rate(pairs@, f));
                }
            }
            return out;
        },
        Some(m) => m,
    };
    let mut out: Vec<Resolution> = Vec::new();
    let mut i: usize = 0;
    while i < pairs.len()
        invariant
            i <= pairs@.len(),
            forall|i: int, j: int|
                0 <= i < j < pairs@.len() ==> (#[trigger] pairs@[i]).0 != (#[trigger] pairs@[j]).0,
            forall|a: int, b: int|
                0 <= a < b < out@.len() ==> res_lt(#[trigger] out@[a], #[trigger] out@[b]),
            forall|e: Resolution|
                #[trigger] out@.contains(e) <==> eligible_prefix(pairs@, e, m, i as int),
        decreases pairs@.len() - i,
    {
        let ghost old_out = out@;
        if contains_rate(&pairs[i].1, m) {
            let c = pairs[i].0;
            proof {
                if out@.contains(c) {
                    let a = choose|a: int|
                        0 <= a < i && (#[trigger] pairs@[a]).0 == c && pairs@[a].1@.contains(m);
                    assert(pairs@[a].0 == pairs@[i as int].0);
                    assert(false);
                }
            }
            let mut p: usize = 0;
            while p < out.len() && res_before(&out[p], &c)
                invariant
                    p <= out@.len(),
                    out@ == old_out,
                    forall|k: int| 0 <= k < p ==> res_lt(#[trigger] out@[k], c),
                decreases out@.len() - p,
            {
                p = p + 1;
            }
            proof {
                if p < out@.len() {
                    assert(out@.contains(out@[p as int]));
                    assert(out@[p as int] != c);
                    assert(res_lt(c, out@[p as int]));
                }
            }
            out.insert(p, c);
            proof {
                old_out.insert_ensures(p as int, c);
                assert forall|a: int, b: int| 0 <= a < b < out@.len() implies res_lt(
                    #[trigger] out@[a],
                    #[trigger] out@[b],
                ) by {
                    if b < p {
                    } else if a < p && b == p {
                    } else if a < p && b > p {
                        assert(res_lt(out@[a], c));
                        if b - 1 > p {
                            assert(res_lt(old_out[p as int], old_out[b - 1]));
                        }
                    } else if a == p {
                        assert(res_lt(c, old_out[p as int]));
                        if b - 1 > p {
                            assert(res_lt(old_out[p as int], old_out[b - 1]));
                        }
                    } else {
                        assert(res_lt(old_out[a - 1], old_out[b - 1]));
                    }
                }
                assert forall|e: Resolution| #[trigger] out@.contains(e) <==> (old_out.contains(e)
                    || e == c) by {
                    if out@.contains(e) {
                        let k = choose|k: int| 0 <= k < out@.len() && out@[k] == e;
                        if k < p {
                            assert(old_out[k] == e);
                        } else if k == p {
                        } else {
                            assert(old_out[k - 1] == e);
                        }
                    }
                    if old_out.contains(e) {
                        let k = choose|k: int| 0 <= k < old_out.len() && old_out[k] == e;
                        if k < p {
                            assert(out@[k] == e);
                        } else {
                            assert(out@[k + 1] == e);
                        }
                    }
                    if e == c {
                        assert(out@[p as int] == e);
                    }
                }
                assert forall|e: Resolution| #[trigger] out@.contains(e) <==> eligible_prefix(
                    pairs@,
                    e,
                    m,
                    i + 1,
                ) by {
                    if out@.contains(e) {
                        if e == c {
                            assert((#[trigger] pairs@[i as int]).0 == e
                                && pairs@[i as int].1@.contains(m));
                        }
                    }
                    if eligible_prefix(pairs@, e, m, i + 1) {
                        let a = choose|a: int|
                            0 <= a < i + 1 && (#[trigger] pairs@[a]).0 == e
                                && pairs@[a].1@.contains(m);
                        if a < i {
                            assert(eligible_prefix(pairs@, e, m, i as int));
                        }
                    }
                }
            }
        } else {
            proof {
                assert forall|e: Resolution| #[trigger] out@.contains(e) <==> eligible_prefix(
                    pairs@,
                    e,
                    m,
                    i + 1,
                ) by {
                    if eligible_prefix(pairs@, e, m, i + 1) {
                        let a = choose|a: int|
                            0 <= a < i + 1 && (#[trigger] pairs@[a]).0 == e
                                && pairs@[a].1@.contains(m);
                        if a < i {
                            assert(eligible_prefix(pairs@, e, m, i as int));
                        }
                    }
                }
            }
        }
        i = i + 1;
    }
    proof {
        assert forall|f: u32| is_max_rate(pairs@, f) implies f == m by {
            assert(lists_rate(pairs@, f));
            assert(lists_rate(pairs@, m));
        }
        assert forall|e: Resolution| #[trigger] out@.contains(e) <==> eligible_at(
            pairs@,
            e,
            m,
        ) by {
            assert(out@.contains(e) <==> eligible_prefix(pairs@, e, m, pairs@.len() as int));
        }
    }
    out
}

} // verus!
