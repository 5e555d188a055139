//! Digital line traversal between two array indices.
//!
//! The path walks the major axis one cell at a time; whenever the line
//! crosses a cell boundary on the minor axis, the step on the minor axis is
//! taken as its own extra cell rather than as a diagonal move, so every cell
//! the line passes through appears. Exact diagonals walk the diagonal cells
//! alone. The path is computed in a fixed canonical direction and reversed
//! when the caller asked for the other one, so tracing back yields exactly
//! the reverse sequence.

use vstd::prelude::*;

verus! {

/// The canonical order of two endpoints: by `x`, then by `y`.
pub open spec fn lex_le(a: (usize, usize), b: (usize, usize)) -> bool {
    a.0 < b.0 || (a.0 == b.0 && a.1 <= b.1)
}

/// The steps of a major-axis walk, as `(major, minor)` pairs: one step along
/// the major axis per round, with the minor coordinate stepping in a round
/// of its own whenever the accumulated error crosses half a major cell.
pub open spec fn walk(
    maj: int,
    min: int,
    smaj: int,
    smin: int,
    amaj: int,
    amin: int,
    i: int,
    err: int,
) -> Seq<(int, int)>
    decreases amaj - i,
{
    if i < 0 || i >= amaj {
        Seq::empty()
    } else {
        let err2 = err + amin;
        let maj2 = maj + smaj;
        if 2 * err2 >= amaj {
            seq![(maj2, min), (maj2, min + smin)] + walk(
                maj2,
                min + smin,
                smaj,
                smin,
                amaj,
                amin,
                i + 1,
                err2 - amaj,
            )
        } else {
            seq![(maj2, min)] + walk(maj2, min, smaj, smin, amaj, amin, i + 1, err2)
        }
    }
}

/// The steps of an exact diagonal, stepping both axes together.
pub open spec fn diag(x: int, y: int, sy: int, n: int) -> Seq<(int, int)>
    decreases n,
{
    if n <= 0 {
        Seq::empty()
    } else {
        seq![(x + 1, y + sy)] + diag(x + 1, y + sy, sy, n - 1)
    }
}

/// The path from `a` to `b` when `a` comes first in canonical order, as
/// `(x, y)` pairs, both endpoints included.
pub open spec fn canon_path(a: (usize, usize), b: (usize, usize)) -> Seq<(int, int)> {
    let xa = a.0 as int;
    let ya = a.1 as int;
    let dx = b.0 - a.0;
    let dy = b.1 - a.1;
    let ady = if dy >= 0 {
        dy
    } else {
        -dy
    };
    let sy: int = if dy >= 0 {
        1
    } else {
        -1
    };
    if dx == ady {
        seq![(xa, ya)] + diag(xa, ya, sy, dx)
    } else if dx > ady {
        seq![(xa, ya)] + walk(xa, ya, 1, sy, dx, ady, 0, 0)
    } else {
        seq![(xa, ya)] + walk(ya, xa, sy, 1, ady, dx, 0, 0).map_values(
            |p: (int, int)| (p.1, p.0),
        )
    }
}

/// The path of cells a digital line visits from `a` to `b`, as `(x, y)`
/// pairs, both endpoints included; tracing `b` to `a` gives the exact
/// reverse sequence.
pub open spec fn line_seq(a: (usize, usize), b: (usize, usize)) -> Seq<(int, int)> {
    if lex_le(a, b) {
        canon_path(a, b)
    } else {
        canon_path(b, a).reverse()
    }
}

/// Tracing a line backwards yields exactly the reverse sequence of cells.
pub proof fn lemma_line_reverse(a: (usize, usize), b: (usize, usize))
    ensures
        line_seq(b, a) == line_seq(a, b).reverse(),
{
    if lex_le(a, b) && lex_le(b, a) {
        assert(a == b);
        assert(line_seq(a, b) == canon_path(a, a));
        assert(canon_path(a, a) == seq![(a.0 as int, a.1 as int)] + diag(
            a.0 as int,
            a.1 as int,
            1,
            0,
        ));
        assert(canon_path(a, a) =~= seq![(a.0 as int, a.1 as int)]);
        assert(line_seq(b, a) =~= line_seq(a, b).reverse());
    } else if lex_le(a, b) {
        assert(line_seq(a, b) == canon_path(a, b));
        assert(line_seq(b, a) == canon_path(a, b).reverse());
    } else {
        assert(line_seq(a, b) == canon_path(b, a).reverse());
        assert(line_seq(b, a) == canon_path(b, a));
        assert(canon_path(b, a).reverse().reverse() =~= canon_path(b, a));
    }
}

/// The length, endpoint and bounding box of a major-axis walk: from a state
/// that has taken `i` major and `m` minor steps, the walk takes the
/// remaining `amaj - i` major and `amin - m` minor steps, each as one cell,
/// ends at the target, and never leaves the rectangle they span.
proof fn lemma_walk_props(
    maj: int,
    min: int,
    smaj: int,
    smin: int,
    amaj: int,
    amin: int,
    i: int,
    err: int,
    m: int,
)
    requires
        0 <= amin < amaj,
        0 <= i <= amaj,
        0 <= m <= amin,
        smaj == 1 || smaj == -1,
        smin == 1 || smin == -1,
        err == i * amin - m * amaj,
        -amaj <= 2 * err < amaj,
    ensures
        ({
            let w = walk(maj, min, smaj, smin, amaj, amin, i, err);
            &&& w.len() == (amaj - i) + (amin - m)
            &&& w.len() > 0 ==> w[w.len() - 1] == (
                maj + smaj * (amaj - i),
                min + smin * (amin - m),
            )
            &&& forall|t: int|
                0 <= t < w.len() ==> {
                    let p = #[trigger] w[t];
                    &&& (if smaj == 1 {
                        maj < p.0 <= maj + (amaj - i)
                    } else {
                        maj - (amaj - i) <= p.0 < maj
                    })
                    &&& (if smin == 1 {
                        min <= p.1 <= min + (amin - m)
                    } else {
                        min - (amin - m) <= p.1 <= min
                    })
                }
        }),
    decreases amaj - i,
{
    let w = walk(maj, min, smaj, smin, amaj, amin, i, err);
    if i >= amaj {
        assert(m == amin) by (nonlinear_arith)
            requires
                err == i * amin - m * amaj,
                i == amaj,
                -amaj <= 2 * err < amaj,
                0 < amaj,
                0 <= m <= amin,
        ;
    } else {
        let err2 = err + amin;
        let maj2 = maj + smaj;
        if 2 * err2 >= amaj {
            assert(m + 1 <= amin) by (nonlinear_arith)
                requires
                    err == i * amin - m * amaj,
                    2 * (err + amin) >= amaj,
                    0 <= i < amaj,
                    0 <= amin < amaj,
                    0 <= m <= amin,
            ;
            assert((i + 1) * amin - (m + 1) * amaj == err2 - amaj) by (nonlinear_arith)
                requires
                    err == i * amin - m * amaj,
                    err2 == err + amin,
            ;
            lemma_walk_props(maj2, min + smin, smaj, smin, amaj, amin, i + 1, err2 - amaj, m + 1);
            let w2 = walk(maj2, min + smin, smaj, smin, amaj, amin, i + 1, err2 - amaj);
            assert(w == seq![(maj2, min), (maj2, min + smin)] + w2);
            assert forall|t: int| 0 <= t < w.len() implies {
                let p = #[trigger] w[t];
                &&& (if smaj == 1 {
                    maj < p.0 <= maj + (amaj - i)
                } else {
                    maj - (amaj - i) <= p.0 < maj
                })
                &&& (if smin == 1 {
                    min <= p.1 <= min + (amin - m)
                } else {
                    min - (amin - m) <= p.1 <= min
                })
            } by {
                if t >= 2 {
                    assert(w[t] == w2[t - 2]);
                }
            }
        } else {
            assert((i + 1) * amin - m * amaj == err2) by (nonlinear_arith)
                requires
                    err == i * amin - m * amaj,
                    err2 == err + amin,
            ;
            lemma_walk_props(maj2, min, smaj, smin, amaj, amin, i + 1, err2, m);
            let w2 = walk(maj2, min, smaj, smin, amaj, amin, i + 1, err2);
            assert(w == seq![(maj2, min)] + w2);
            assert forall|t: int| 0 <= t < w.len() implies {
                let p = #[trigger] w[t];
                &&& (if smaj == 1 {
                    maj < p.0 <= maj + (amaj - i)
                } else {
                    maj - (amaj - i) <= p.0 < maj
                })
                &&& (if smin == 1 {
                    min <= p.1 <= min + (amin - m)
                } else {
                    min - (amin - m) <= p.1 <= min
                })
            } by {
                if t >= 1 {
                    assert(w[t] == w2[t - 1]);
                }
            }
        }
    }
}

/// The length, endpoint and bounding box of an exact diagonal.
proof fn lemma_diag_props(x: int, y: int, sy: int, n: int)
    requires
        0 <= n,
        sy == 1 || sy == -1,
    ensures
        ({
            let w = diag(x, y, sy, n);
            &&& w.len() == n
            &&& w.len() > 0 ==> w[w.len() - 1] == (x + n, y + sy * n)
            &&& forall|t: int| 0 <= t < w.len() ==> #[trigger] w[t] == (x + t + 1, y + sy * (t + 1))
            &&& forall|t: int|
                0 <= t < w.len() ==> {
                    let p = #[trigger] w[t];
                    &&& x < p.0 <= x + n
                    &&& (if sy == 1 {
                        y <= p.1 <= y + n
                    } else {
                        y - n <= p.1 <= y
                    })
                }
        }),
    decreases n,
{
    if n > 0 {
        lemma_diag_props(x + 1, y + sy, sy, n - 1);
        let w = diag(x, y, sy, n);
        let w2 = diag(x + 1, y + sy, sy, n - 1);
        assert(w == seq![(x + 1, y + sy)] + w2);
        assert forall|t: int| 0 <= t < w.len() implies #[trigger] w[t] == (
            x + t + 1,
            y + sy * (t + 1),
        ) by {
            assert(sy * (t + 1) == sy + sy * t) by (nonlinear_arith);
            if t >= 1 {
                assert(w[t] == w2[t - 1]);
            }
        }
        assert forall|t: int| 0 <= t < w.len() implies {
            let p = #[trigger] w[t];
            &&& x < p.0 <= x + n
            &&& (if sy == 1 {
                y <= p.1 <= y + n
            } else {
                y - n <= p.1 <= y
            })
        } by {
            if t >= 1 {
                assert(w[t] == w2[t - 1]);
            }
        }
    }
}

/// The length, endpoints and bounding box of a line path: both endpoints are
/// included, the straight and diagonal parts contribute one cell per axis
/// step, and no cell leaves the rectangle the endpoints span.
pub proof fn lemma_line_seq_props(a: (usize, usize), b: (usize, usize))
    ensures
        ({
            let s = line_seq(a, b);
            let dx = if a.0 <= b.0 {
                b.0 - a.0
            } else {
                a.0 - b.0
            };
            let dy = if a.1 <= b.1 {
                b.1 - a.1
            } else {
                a.1 - b.1
            };
            &&& s.len() == (if dx == dy {
                dx + 1
            } else {
                dx + dy + 1
            })
            &&& s[0] == (a.0 as int, a.1 as int)
            &&& s[s.len() - 1] == (b.0 as int, b.1 as int)
            &&& forall|t: int|
                0 <= t < s.len() ==> {
                    let p = #[trigger] s[t];
                    &&& (if a.0 <= b.0 {
                        a.0 <= p.0 <= b.0
                    } else {
                        b.0 <= p.0 <= a.0
                    })
                    &&& (if a.1 <= b.1 {
                        a.1 <= p.1 <= b.1
                    } else {
                        b.1 <= p.1 <= a.1
                    })
                }
        }),
{
    if lex_le(a, b) {
        lemma_canon_props(a, b);
    } else {
        lemma_canon_props(b, a);
        let c = canon_path(b, a);
        let s = line_seq(a, b);
        assert(s == c.reverse());
        assert forall|t: int| 0 <= t < s.len() implies s[t] == c[c.len() - 1 - t] by {}
        assert(s[0] == c[c.len() - 1]);
        assert(s[s.len() - 1] == c[0]);
    }
}

/// Whether the exec path `v` holds exactly the cells of the spec path `s`.
pub open spec fn path_matches(v: Seq<(usize, usize)>, s: Seq<(int, int)>) -> bool {
    v.len() == s.len() && forall|t: int|
        0 <= t < v.len() ==> ((#[trigger] v[t]).0 as int, v[t].1 as int) == s[t]
}

/// Appends the steps of a major-axis walk to `out`, as `(x, y)` cells: the
/// pairs of the walk directly, or each pair flipped when the major axis is
/// `y`.
fn walk_exec(
    maj0: usize,
    min0: usize,
    maj_up: bool,
    min_up: bool,
    amaj: usize,
    amin: usize,
    transpose: bool,
    out: &mut Vec<(usize, usize)>,
)
    requires
        amin < amaj,
        maj_up ==> maj0 + amaj <= usize::MAX,
        !maj_up ==> amaj <= maj0,
        min_up ==> min0 + amin <= usize::MAX,
        !min_up ==> amin <= min0,
    ensures
        ({
            let smaj: int = if maj_up {
                1
            } else {
                -1
            };
            let smin: int = if min_up {
                1
            } else {
                -1
            };
            let w0 = walk(maj0 as int, min0 as int, smaj, smin, amaj as int, amin as int, 0, 0);
            let w = if transpose {
                w0.map_values(|p: (int, int)| (p.1, p.0))
            } else {
                w0
            };
            &&& final(out)@.len() == old(out)@.len() + w.len()
            &&& final(out)@.subrange(0, old(out)@.len() as int) == old(out)@
            &&& path_matches(
                final(out)@.subrange(old(out)@.len() as int, final(out)@.len() as int),
                w,
            )
        }),
{
    let ghost smaj: int = if maj_up {
        1
    } else {
        -1
    };
    let ghost smin: int = if min_up {
        1
    } else {
        -1
    };
    let ghost w0 = walk(maj0 as int, min0 as int, smaj, smin, amaj as int, amin as int, 0, 0);
    let ghost base = out@.len() as int;
    proof {
        lemma_walk_props(
            maj0 as int,
            min0 as int,
            smaj,
            smin,
            amaj as int,
            amin as int,
            0,
            0,
            0,
        );
    }
    let mut i: usize = 0;
    let mut maj: usize = maj0;
    let mut min: usize = min0;
    let mut err: i128 = 0;
    let ghost mut m: int = 0;
    while i < amaj
        invariant
            amin < amaj,
            maj_up ==> maj0 + amaj <= usize::MAX,
            !maj_up ==> amaj <= maj0,
            min_up ==> min0 + amin <= usize::MAX,
            !min_up ==> amin <= min0,
            smaj == (if maj_up {
                1int
            } else {
                -1int
            }),
            smin == (if min_up {
                1int
            } else {
                -1int
            }),
            w0 == walk(maj0 as int, min0 as int, smaj, smin, amaj as int, amin as int, 0, 0),
            w0.len() == amaj + amin,
            i <= amaj,
            0 <= m <= amin,
            maj_up ==> maj as int == maj0 + i,
            !maj_up ==> maj as int + i == maj0,
            min_up ==> min as int == min0 + m,
            !min_up ==> min as int + m == min0,
            err as int == i * amin - m * (amaj as int),
            -(amaj as int) <= 2 * (err as int) < amaj as int,
            base == old(out)@.len(),
            out@.len() == base + i + m,
            base <= out@.len(),
            out@.subrange(0, base) == old(out)@,
            forall|t: int|
                0 <= t < i + m ==> ((#[trigger] out@[base + t]).0 as int, out@[base + t].1 as int)
                    == (if transpose {
                    (w0[t].1, w0[t].0)
                } else {
                    w0[t]
                }),
            walk(maj as int, min as int, smaj, smin, amaj as int, amin as int, i as int, err as int)
                == w0.skip(i + m),
        decreases amaj - i,
    {
        let ghost p = i + m;
        let ghost out_o = out@;
        let ghost maj_o = maj as int;
        let ghost min_o = min as int;
        let ghost err_o = err as int;
        let ghost i_o = i as int;
        let ghost m_o = m;
        let ghost wcur = walk(
            maj as int,
            min as int,
            smaj,
            smin,
            amaj as int,
            amin as int,
            i as int,
            err as int,
        );
        proof {
            lemma_walk_props(
                maj as int,
                min as int,
                smaj,
                smin,
                amaj as int,
                amin as int,
                i as int,
                err as int,
                m,
            );
        }
        err = err + (amin as i128);
        if maj_up {
            maj = maj + 1;
        } else {
            maj = maj - 1;
        }
        let fire = 2 * err >= (amaj as i128);
        if fire {
            proof {
                assert(m + 1 <= amin) by (nonlinear_arith)
                    requires
                        (err as int) - amin == i * amin - m * (amaj as int),
                        2 * (err as int) >= amaj,
                        0 <= i < amaj,
                        0 <= amin < amaj,
                        0 <= m <= amin,
                ;
            }
            let v1 = if transpose {
                (min, maj)
            } else {
                (maj, min)
            };
            out.push(v1);
            if min_up {
                min = min + 1;
            } else {
                min = min - 1;
            }
            let v2 = if transpose {
                (min, maj)
            } else {
                (maj, min)
            };
            out.push(v2);
            proof {
                assert(out@ == out_o.push(v1).push(v2));
                assert forall|j: int| 0 <= j < out_o.len() implies #[trigger] out@[j]
                    == out_o[j] by {
                    assert(out_o.push(v1)[j] == out_o[j]);
                    assert(out_o.push(v1).push(v2)[j] == out_o.push(v1)[j]);
                }
            }
            err = err - (amaj as i128);
            proof {
                m = m + 1;
                assert((i + 1) * amin - m * (amaj as int) == err) by (nonlinear_arith)
                    requires
                        (err as int) + amaj - amin == i * amin - (m - 1) * (amaj as int),
                ;
            }
        } else {
            let v1 = if transpose {
                (min, maj)
            } else {
                (maj, min)
            };
            out.push(v1);
            proof {
                assert(out@ == out_o.push(v1));
                assert forall|j: int| 0 <= j < out_o.len() implies #[trigger] out@[j]
                    == out_o[j] by {
                    assert(out_o.push(v1)[j] == out_o[j]);
                }
                assert((i + 1) * amin - m * (amaj as int) == err) by (nonlinear_arith)
                    requires
                        (err as int) - amin == i * amin - m * (amaj as int),
                ;
            }
        }
        i = i + 1;
        proof {
            let steps: int = if fire {
                2
            } else {
                1
            };
            let err2 = err_o + amin;
            let maj2 = maj_o + smaj;
            if fire {
                assert(wcur == seq![(maj2, min_o), (maj2, min_o + smin)] + walk(
                    maj2,
                    min_o + smin,
                    smaj,
                    smin,
                    amaj as int,
                    amin as int,
                    i_o + 1,
                    err2 - amaj,
                ));
                assert(maj as int == maj2 && min as int == min_o + smin && err as int == err2
                    - amaj && i as int == i_o + 1 && m == m_o + 1);
            } else {
                assert(wcur == seq![(maj2, min_o)] + walk(
                    maj2,
                    min_o,
                    smaj,
                    smin,
                    amaj as int,
                    amin as int,
                    i_o + 1,
                    err2,
                ));
                assert(maj as int == maj2 && min as int == min_o && err as int == err2 && i as int
                    == i_o + 1 && m == m_o);
            }
            assert(wcur == w0.skip(p));
            let wnext = walk(
                maj as int,
                min as int,
                smaj,
                smin,
                amaj as int,
                amin as int,
                i as int,
                err as int,
            );
            assert(wnext.len() == wcur.len() - steps);
            assert(wcur.len() == w0.len() - p);
            assert forall|t: int| 0 <= t < wnext.len() implies wnext[t] == w0.skip(p + steps)[t] by {
                assert(wnext[t] == wcur[steps + t]);
                assert(wcur[steps + t] == w0.skip(p)[steps + t]);
                assert(w0.skip(p)[steps + t] == w0[p + steps + t]);
                assert(w0.skip(p + steps)[t] == w0[p + steps + t]);
            }
            assert(wnext =~= w0.skip(p + steps));
            assert(out@.len() == base + p + steps);
            assert forall|t: int|
                0 <= t < i + m implies ((#[trigger] out@[base + t]).0 as int, out@[base + t].1
                as int) == (if transpose {
                (w0[t].1, w0[t].0)
            } else {
                w0[t]
            }) by {
                if t < p {
                    assert(out_o.len() == base + p);
                    assert(0 <= base + t < out_o.len());
                    assert(out@[base + t] == out_o[base + t]);
                } else {
                    assert(w0[t] == w0.skip(p)[t - p]);
                    assert(w0.skip(p)[t - p] == wcur[t - p]);
                    if fire {
                        if t == p {
                            assert(wcur[0] == (maj2, min_o));
                            assert(out@[base + t] == out@[out_o.len() as int]);
                        } else {
                            assert(t == p + 1);
                            assert(wcur[1] == (maj2, min_o + smin));
                        }
                    } else {
                        assert(t == p);
                        assert(wcur[0] == (maj2, min_o));
                        assert(out@[base + t] == out@[out_o.len() as int]);
                    }
                }
            }
            assert forall|j: int| 0 <= j < base implies #[trigger] out@.subrange(0, base)[j]
                == old(out)@[j] by {
                assert(out@.subrange(0, base)[j] == out@[j]);
                assert(out@[j] == out_o[j]);
                assert(out_o.subrange(0, base)[j] == out_o[j]);
            }
            assert(out@.subrange(0, base) =~= old(out)@);
        }
    }
    proof {
        assert(m == amin) by (nonlinear_arith)
            requires
                err as int == i * amin - m * (amaj as int),
                i == amaj,
                -(amaj as int) <= 2 * (err as int) < amaj as int,
                0 < amaj,
                0 <= m <= amin,
        ;
        let v = out@.subrange(base, out@.len() as int);
        assert(v.len() == w0.len());
        if transpose {
            let w = w0.map_values(|q: (int, int)| (q.1, q.0));
            assert forall|t: int| 0 <= t < v.len() implies ((#[trigger] v[t]).0 as int, v[t].1
                as int) == w[t] by {
                assert(v[t] == out@[base + t]);
                assert((out@[base + t].0 as int, out@[base + t].1 as int) == (w0[t].1, w0[t].0));
            }
            assert(path_matches(v, w));
        } else {
            assert forall|t: int| 0 <= t < v.len() implies ((#[trigger] v[t]).0 as int, v[t].1
                as int) == w0[t] by {
                assert(v[t] == out@[base + t]);
            }
            assert(path_matches(v, w0));
        }
    }
}

/// Computes the cells of the digital line from `a` to `b`, both endpoints
/// included, in traversal order.
pub fn line_path(a: (usize, usize), b: (usize, usize)) -> (r: Vec<(usize, usize)>)
    ensures
        path_matches(r@, line_seq(a, b)),
{
    let swap = !(a.0 < b.0 || (a.0 == b.0 && a.1 <= b.1));
    let (ca, cb) = if swap {
        (b, a)
    } else {
        (a, b)
    };
    let dx = cb.0 - ca.0;
    let up = cb.1 >= ca.1;
    let ady = if up {
        cb.1 - ca.1
    } else {
        ca.1 - cb.1
    };
    let ghost sy: int = if up {
        1
    } else {
        -1
    };
    let mut v: Vec<(usize, usize)> = Vec::new();
    v.push(ca);
    if dx == ady {
        let ghost d = diag(ca.0 as int, ca.1 as int, sy, dx as int);
        proof {
            lemma_diag_props(ca.0 as int, ca.1 as int, sy, dx as int);
        }
        let mut t: usize = 0;
        while t < dx
            invariant
                t <= dx,
                dx == ady,
                up ==> cb.1 - ca.1 == ady,
                !up ==> ca.1 - cb.1 == ady,
                ca.0 + dx == cb.0,
                sy == (if up {
                    1int
                } else {
                    -1int
                }),
                d == diag(ca.0 as int, ca.1 as int, sy, dx as int),
                d.len() == dx,
                forall|j: int|
                    0 <= j < d.len() ==> #[trigger] d[j] == (
                        ca.0 + j + 1,
                        ca.1 + sy * (j + 1),
                    ),
                v@.len() == 1 + t,
                v@[0] == ca,
                forall|j: int|
                    0 <= j < t ==> ((#[trigger] v@[1 + j]).0 as int, v@[1 + j].1 as int) == d[j],
            decreases dx - t,
        {
            proof {
                assert(sy * (t + 1) == (if up {
                    (t + 1) as int
                } else {
                    -((t + 1) as int)
                })) by (nonlinear_arith)
                    requires
                        sy == (if up {
                            1int
                        } else {
                            -1int
                        }),
                ;
            }
            let ghost prev = v@;
            if up {
                v.push((ca.0 + t + 1, ca.1 + t + 1));
            } else {
                v.push((ca.0 + t + 1, ca.1 - (t + 1)));
            }
            t = t + 1;
            proof {
                assert forall|j: int|
                    0 <= j < t implies ((#[trigger] v@[1 + j]).0 as int, v@[1 + j].1 as int)
                    == d[j] by {
                    if j + 1 < t {
                        assert(v@[1 + j] == prev[1 + j]);
                    }
                }
            }
        }
    } else {
        let ghost v1 = v@;
        if dx > ady {
            walk_exec(ca.0, ca.1, true, up, dx, ady, false, &mut v);
        } else {
            walk_exec(ca.1, ca.0, up, true, ady, dx, true, &mut v);
        }
        proof {
            assert(v1 == Seq::<(usize, usize)>::empty().push(ca));
            assert(v1.len() == 1 && v1[0] == ca);
            assert(v@.subrange(0, 1) == v1);
            assert(v@[0] == v@.subrange(0, 1)[0]);
        }
    }
    proof {
        let c = canon_path(ca, cb);
        let tail = v@.subrange(1, v@.len() as int);
        assert(v@.len() == c.len()) by {
            if dx == ady {
            } else {
                assert(tail.len() == c.len() - 1);
            }
        }
        assert forall|j: int|
            0 <= j < v@.len() implies ((#[trigger] v@[j]).0 as int, v@[j].1 as int) == c[j] by {
            if j == 0 {
                assert(v@[0] == ca);
                assert(c[0] == (ca.0 as int, ca.1 as int));
            } else if dx == ady {
                assert(v@[j] == v@[1 + (j - 1)]);
                assert(c[j] == diag(ca.0 as int, ca.1 as int, sy, dx as int)[j - 1]);
            } else if dx > ady {
                let w = walk(ca.0 as int, ca.1 as int, 1, sy, dx as int, ady as int, 0, 0);
                assert(v@[j] == tail[j - 1]);
                assert((tail[j - 1].0 as int, tail[j - 1].1 as int) == w[j - 1]);
                assert(c[j] == w[j - 1]);
            } else {
                let w0 = walk(ca.1 as int, ca.0 as int, sy, 1, ady as int, dx as int, 0, 0);
                assert(v@[j] == tail[j - 1]);
                assert((tail[j - 1].0 as int, tail[j - 1].1 as int) == w0.map_values(
                    |p: (int, int)| (p.1, p.0),
                )[j - 1]);
                assert(w0.map_values(|p: (int, int)| (p.1, p.0))[j - 1] == (
                    w0[j - 1].1,
                    w0[j - 1].0,
                ));
                assert(c[j] == w0.map_values(|p: (int, int)| (p.1, p.0))[j - 1]);
            }
        }
        assert(path_matches(v@, canon_path(ca, cb)));
    }
    if swap {
        let mut out: Vec<(usize, usize)> = Vec::new();
        let mut i: usize = v.len();
        while i > 0
            invariant
                i <= v@.len(),
                out@.len() == v@.len() - i,
                forall|j: int|
                    0 <= j < out@.len() ==> #[trigger] out@[j] == v@[v@.len() - 1 - j],
            decreases i,
        {
            i = i - 1;
            out.push(v[i]);
        }
        proof {
            let c = canon_path(ca, cb);
            assert(line_seq(a, b) == c.reverse());
            assert forall|t: int|
                0 <= t < out@.len() implies ((#[trigger] out@[t]).0 as int, out@[t].1 as int)
                == line_seq(a, b)[t] by {
                assert(out@[t] == v@[v@.len() - 1 - t]);
                assert(c.reverse()[t] == c[c.len() - 1 - t]);
            }
        }
        out
    } else {
        v
    }
}

/// As [`lemma_line_seq_props`], for the canonical direction.
proof fn lemma_canon_props(a: (usize, usize), b: (usize, usize))
    requires
        lex_le(a, b),
    ensures
        ({
            let s = canon_path(a, b);
            let dx = b.0 - a.0;
            let dy = if a.1 <= b.1 {
                b.1 - a.1
            } else {
                a.1 - b.1
            };
            &&& s.len() == (if dx == dy {
                dx + 1
            } else {
                dx + dy + 1
            })
            &&& s[0] == (a.0 as int, a.1 as int)
            &&& s[s.len() - 1] == (b.0 as int, b.1 as int)
            &&& forall|t: int|
                0 <= t < s.len() ==> {
                    let p = #[trigger] s[t];
                    &&& a.0 <= p.0 <= b.0
                    &&& (if a.1 <= b.1 {
                        a.1 <= p.1 <= b.1
                    } else {
                        b.1 <= p.1 <= a.1
                    })
                }
        }),
{
    let xa = a.0 as int;
    let ya = a.1 as int;
    let dx = b.0 - a.0;
    let dy = b.1 - a.1;
    let ady = if dy >= 0 {
        dy
    } else {
        -dy
    };
    let sy: int = if dy >= 0 {
        1
    } else {
        -1
    };
    if dx == ady {
        lemma_diag_props(xa, ya, sy, dx);
    } else if dx > ady {
        lemma_walk_props(xa, ya, 1, sy, dx, ady, 0, 0, 0);
    } else {
        lemma_walk_props(ya, xa, sy, 1, ady, dx, 0, 0, 0);
        let w = walk(ya, xa, sy, 1, ady, dx, 0, 0);
        let s = canon_path(a, b);
        assert(s == seq![(xa, ya)] + w.map_values(|p: (int, int)| (p.1, p.0)));
        assert forall|t: int| 0 <= t < s.len() implies {
            let p = #[trigger] s[t];
            &&& a.0 <= p.0 <= b.0
            &&& (if a.1 <= b.1 {
                a.1 <= p.1 <= b.1
            } else {
                b.1 <= p.1 <= a.1
            })
        } by {
            if t >= 1 {
                assert(s[t] == (w[t - 1].1, w[t - 1].0));
            }
        }
        assert(s[s.len() - 1] == (w[w.len() - 1].1, w[w.len() - 1].0));
    }
}

} // verus!
