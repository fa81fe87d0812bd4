//! Image cache keys and animated-image frame timing.
use vstd::prelude::*;
use crate::text::{dec, push_dec, push_str};

verus! {

/// How an image is masked.
#[derive(Debug, Clone, Copy, PartialEq, Eq, Structural)]
pub enum Shape {
    Square,
    /// Rounded rect; the radius is a fraction of the shorter side.
    Rounded(u8),
    Circle,
}

pub open spec fn cache_key_spec(url: Seq<char>, shape: Shape) -> Seq<char> {
    match shape {
        Shape::Square => url,
        Shape::Rounded(r) => url + "#r"@ + dec(r as nat),
        Shape::Circle => url + "#c"@,
    }
}

/// One texture per (URL, mask): masked variants get their own key.
pub fn cache_key(url: &str, shape: Shape) -> (r: String)
    ensures
        r@ == cache_key_spec(url@, shape),
{
    let mut s = url.to_string();
    match shape {
        Shape::Square => {}
        Shape::Rounded(r) => {
            push_str(&mut s, "#r");
            push_dec(&mut s, r as u64);
        }
        Shape::Circle => {
            push_str(&mut s, "#c");
        }
    }
    s
}

/// Shortest frame delay honored (as browsers do).
pub const MIN_FRAME_NS: u64 = 20_000_000;
pub const NS_PER_MS: u64 = 1_000_000;
/// Fallback delay (ns) when there are no frames or the time runs past them.
pub const FALLBACK_NS: u64 = 100_000_000;

pub open spec fn clamp_delay(d: u64) -> u64 {
    if d >= MIN_FRAME_NS { d } else { MIN_FRAME_NS }
}

/// The frame shown `t` units into the cycle and its remaining delay, by
/// walking the frame delays from frame `i` on (`t` is compared against
/// each delay's whole milliseconds, as the player always did).
pub open spec fn frame_walk(delays: Seq<u64>, i: int, t: u64) -> (int, u64)
    decreases delays.len() - i,
{
    if i < 0 || i >= delays.len() {
        ((delays.len() - 1) as int, FALLBACK_NS)
    } else {
        let d = clamp_delay(delays[i]);
        let d_ms = d / NS_PER_MS;
        if t < d_ms {
            (i, (d - t * NS_PER_MS) as u64)
        } else {
            frame_walk(delays, i + 1, (t - d_ms) as u64)
        }
    }
}

/// Which frame of an animation (`delays_ns` per frame, `total_ns` the
/// cycle) is on screen `t_ns` after it started, and for how much longer.
pub fn frame_at(delays_ns: &[u64], total_ns: u64, t_ns: u64) -> (r: (usize, u64))
    ensures
        delays_ns@.len() == 0 ==> r == (0usize, FALLBACK_NS),
        delays_ns@.len() > 0 ==> ({
            let cycle = if total_ns >= NS_PER_MS { total_ns } else { NS_PER_MS };
            let w = frame_walk(delays_ns@, 0, t_ns % cycle);
            r.0 as int == w.0 && r.1 == w.1
        }),
{
    if delays_ns.len() == 0 {
        return (0, FALLBACK_NS);
    }
    let cycle: u64 = if total_ns >= NS_PER_MS { total_ns } else { NS_PER_MS };
    let mut t: u64 = t_ns % cycle;
    let mut i: usize = 0;
    while i < delays_ns.len()
        invariant
            i <= delays_ns@.len(),
            delays_ns@.len() > 0,
            cycle == (if total_ns >= NS_PER_MS { total_ns } else { NS_PER_MS }),
            frame_walk(delays_ns@, i as int, t) == frame_walk(delays_ns@, 0, t_ns % cycle),
        decreases delays_ns.len() - i,
    {
        let d: u64 = if delays_ns[i] >= MIN_FRAME_NS { delays_ns[i] } else { MIN_FRAME_NS };
        let d_ms = d / NS_PER_MS;
        if t < d_ms {
            assert(t * NS_PER_MS <= d) by (nonlinear_arith)
                requires t < d_ms, d_ms == d / NS_PER_MS, NS_PER_MS == 1_000_000u64;
            let rem = d - t * NS_PER_MS;
            assert(d == clamp_delay(delays_ns@[i as int]));
            assert(frame_walk(delays_ns@, i as int, t) == (i as int, rem));
            return (i, rem);
        }
        t = t - d_ms;
        i += 1;
    }
    (delays_ns.len() - 1, FALLBACK_NS)
}

} // verus!
