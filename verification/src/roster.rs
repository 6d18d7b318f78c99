//! Facts about the turn order with one player taken out.
use crate::rules::players_without;
use vstd::prelude::*;

verus! {

/// One if `p` occurs in the first `i` players, else zero.
pub open spec fn shift_before(ps: Seq<u8>, p: u8, i: int) -> int {
    if ps.take(i).contains(p) {
        1
    } else {
        0
    }
}

/// Taking `p` out of the turn order keeps the others, in order, each moved
/// down by one place if `p` stood before it.
pub proof fn lemma_players_without(ps: Seq<u8>, p: u8)
    ensures
        forall|x: u8| #[trigger] players_without(ps, p).contains(x) <==> (ps.contains(x) && x != p),
        ps.no_duplicates() ==> players_without(ps, p).no_duplicates(),
        ps.no_duplicates() ==> players_without(ps, p).len() == ps.len() - (if ps.contains(p) {
            1int
        } else {
            0int
        }),
        ps.no_duplicates() ==> forall|i: int|
            0 <= i < ps.len() && ps[i] != p ==> #[trigger] players_without(ps, p)[i - shift_before(
                ps,
                p,
                i,
            )] == ps[i],
    decreases ps.len(),
{
    if ps.len() > 0 {
        let init = ps.drop_last();
        let last = ps.last();
        lemma_players_without(init, p);
        let rest = players_without(init, p);
        assert(ps =~= init.push(last));
        let out = players_without(ps, p);
        assert(out == if last == p { rest } else { rest.push(last) });
        assert forall|x: u8| #[trigger] out.contains(x) <==> (ps.contains(x) && x != p) by {
            if ps.contains(x) && x != p {
                let j = choose|j: int| 0 <= j < ps.len() && ps[j] == x;
                if j < ps.len() - 1 {
                    assert(init[j] == x);
                    assert(init.contains(x));
                    assert(rest.contains(x));
                    let jj = choose|jj: int| 0 <= jj < rest.len() && rest[jj] == x;
                    assert(out[jj] == x);
                } else {
                    assert(out[rest.len() as int] == x);
                }
            }
            if out.contains(x) {
                let j = choose|j: int| 0 <= j < out.len() && out[j] == x;
                if j < rest.len() {
                    assert(rest[j] == x);
                    assert(rest.contains(x));
                    let jj = choose|jj: int| 0 <= jj < init.len() && init[jj] == x;
                    assert(ps[jj] == x);
                } else {
                    assert(ps[ps.len() - 1] == x);
                }
            }
        }
        if ps.no_duplicates() {
            assert(init.no_duplicates());
            if last == p {
                assert(ps.contains(p));
            } else {
                assert(!rest.contains(last)) by {
                    if rest.contains(last) {
                        let jj = choose|jj: int| 0 <= jj < init.len() && init[jj] == last;
                        assert(ps[jj] == ps[ps.len() - 1]);
                    }
                }
                assert(ps.contains(p) == init.contains(p)) by {
                    if ps.contains(p) {
                        let jj = choose|jj: int| 0 <= jj < ps.len() && ps[jj] == p;
                        assert(init[jj] == p);
                    }
                    if init.contains(p) {
                        let jj = choose|jj: int| 0 <= jj < init.len() && init[jj] == p;
                        assert(ps[jj] == p);
                    }
                }
            }
            if last == p {
                assert(!init.contains(p)) by {
                    if init.contains(p) {
                        let jj = choose|jj: int| 0 <= jj < init.len() && init[jj] == p;
                        assert(ps[jj] == ps[ps.len() - 1]);
                    }
                }
            }
            assert forall|i: int|
                0 <= i < ps.len() && ps[i] != p implies #[trigger] players_without(ps, p)[i
                - shift_before(ps, p, i)] == ps[i] by {
                if i < ps.len() - 1 {
                    assert(ps.take(i) =~= init.take(i));
                    assert(init[i] == ps[i]);
                    assert(rest[i - shift_before(init, p, i)] == init[i]);
                    assert(i - shift_before(init, p, i) < rest.len()) by {
                        if init.take(i).contains(p) {
                            assert(init.contains(p)) by {
                                let jj = choose|jj: int| 0 <= jj < init.take(i).len() && init.take(i)[jj] == p;
                                assert(init[jj] == p);
                            }
                        } else {
                            if init.contains(p) {
                                let jj = choose|jj: int| 0 <= jj < init.len() && init[jj] == p;
                                if jj < i {
                                    assert(init.take(i)[jj] == p);
                                }
                                assert(jj != i);
                            }
                        }
                    }
                } else {
                    assert(ps.take(i) =~= init);
                }
            }
        }
    }
}

} // verus!
