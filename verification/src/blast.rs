//! Explosions: an exploding brick wrecks every destructible brick within range, and each
//! explosive brick it wrecks explodes in turn.
use vstd::prelude::*;
use crate::kinds::BrickKind;
use crate::layout::Brick;
use crate::game::{
    Game, BLAST_POINTS, brick_wf, frame_step, live, live_count, wrecked_brick,
    lemma_live_count_update,
};

verus! {

/// What the caller shows of an explosion, in order: a blast at a brick, and the debris of
/// a brick that a blast wrecked.
#[derive(Clone, Copy, Debug, PartialEq, Eq, Structural)]
pub enum BlastEvent {
    Center(usize),
    Debris(usize),
}

/// `near` is an `n` by `n` table.
pub open spec fn near_table(near: Seq<Vec<bool>>, n: int) -> bool {
    &&& near.len() == n
    &&& forall|j: int| 0 <= j < n ==> (#[trigger] near[j])@.len() == n
}

/// Brick `i` lies within blast range of brick `j`.
pub open spec fn in_range(near: Seq<Vec<bool>>, j: int, i: int) -> bool {
    near[j]@[i]
}

/// The bricks standing in `before` and gone in `after`.
pub open spec fn wrecked(before: Seq<Brick>, after: Seq<Brick>) -> Set<int> {
    Set::new(|i: int| 0 <= i < before.len() && before[i].alive && !after[i].alive)
}

/// The explosive bricks among those wrecked.
pub open spec fn wrecked_explosive(before: Seq<Brick>, after: Seq<Brick>) -> Set<int> {
    Set::new(|j: int| wrecked(before, after).contains(j) && before[j].kind == BrickKind::Explosive)
}

/// `after` differs from `before` only by wrecked live bricks.
pub open spec fn only_wrecks(before: Seq<Brick>, after: Seq<Brick>) -> bool {
    &&& after.len() == before.len()
    &&& forall|i: int|
        0 <= i < before.len() ==> #[trigger] after[i] == before[i] || (live(before[i]) && after[i]
            == wrecked_brick(before[i]))
}

/// A set of bricks that an explosion from `center` over the bricks `base` cannot leave:
/// it holds every live brick in range of the centre, and every live brick in range of an
/// explosive brick that it holds.
pub open spec fn blast_closed(s: Set<int>, base: Seq<Brick>, center: int, near: Seq<Vec<bool>>) -> bool {
    &&& forall|i: int|
        0 <= i < base.len() && live(base[i]) && in_range(near, center, i) ==> #[trigger] s.contains(i)
    &&& forall|j: int, i: int|
        #![trigger s.contains(j), in_range(near, j, i)]
        0 <= j < base.len() && s.contains(j) && base[j].kind == BrickKind::Explosive && 0 <= i
            < base.len() && live(base[i]) && in_range(near, j, i) ==> s.contains(i)
}

/// The bricks that an explosion from `center` reaches: those in every set closed under it.
pub open spec fn blast_reach(base: Seq<Brick>, center: int, near: Seq<Vec<bool>>) -> Set<int> {
    Set::new(
        |i: int|
            0 <= i < base.len() && forall|s: Set<int>| #[trigger]
                blast_closed(s, base, center, near) ==> s.contains(i),
    )
}

/// An event fits an explosion from `center` that took the bricks from `before` to
/// `after`: a blast is at the centre or at a wrecked explosive brick, debris is of a
/// wrecked brick.
pub open spec fn event_fits(e: BlastEvent, before: Seq<Brick>, after: Seq<Brick>, center: int) -> bool {
    match e {
        BlastEvent::Center(j) => j == center || wrecked_explosive(before, after).contains(j as int),
        BlastEvent::Debris(i) => wrecked(before, after).contains(i as int),
    }
}

/// Every event from position `from` on fits the explosion.
pub open spec fn events_fit(
    log: Seq<BlastEvent>,
    from: int,
    before: Seq<Brick>,
    after: Seq<Brick>,
    center: int,
) -> bool {
    forall|k: int| from <= k < log.len() ==> event_fits(#[trigger] log[k], before, after, center)
}

/// Every blast from position `from` on is at a brick of `s`.
pub open spec fn centers_in(log: Seq<BlastEvent>, from: int, s: Set<int>) -> bool {
    forall|k: int|
        from <= k < log.len() ==> match #[trigger] log[k] {
            BlastEvent::Center(j) => s.contains(j as int),
            BlastEvent::Debris(_) => true,
        }
}

/// Some event from position `from` on is `e`.
pub open spec fn has_event(log: Seq<BlastEvent>, from: int, e: BlastEvent) -> bool {
    exists|k: int| from <= k < log.len() && log[k] == e
}

/// From position `from` on, no event is shown twice.
pub open spec fn events_distinct(log: Seq<BlastEvent>, from: int) -> bool {
    forall|k1: int, k2: int|
        #![trigger log[k1], log[k2]]
        from <= k1 < log.len() && from <= k2 < log.len() && k1 != k2 ==> log[k1] != log[k2]
}

/// Every brick of `s` has its debris shown from position `from` on.
pub open spec fn debris_cover(log: Seq<BlastEvent>, from: int, s: Set<int>) -> bool {
    forall|i: int| #[trigger] s.contains(i) ==> has_event(log, from, BlastEvent::Debris(i as usize))
}

/// Every brick of `s` has a blast shown from position `from` on.
pub open spec fn centers_cover(log: Seq<BlastEvent>, from: int, s: Set<int>) -> bool {
    forall|j: int| #[trigger] s.contains(j) ==> has_event(log, from, BlastEvent::Center(j as usize))
}

/// The number of blasts shown in `log`.
pub open spec fn blast_count(log: Seq<BlastEvent>) -> nat
    decreases log.len(),
{
    if log.len() == 0 {
        0
    } else {
        (if log[0] is Center {
            1nat
        } else {
            0nat
        }) + blast_count(log.drop_first())
    }
}

/// The live explosive bricks.
pub open spec fn live_explosive(s: Seq<Brick>) -> Set<int> {
    Set::new(|j: int| 0 <= j < s.len() && s[j].alive && s[j].kind == BrickKind::Explosive)
}

/// The bricks at which `log` shows a blast.
spec fn blast_sites(log: Seq<BlastEvent>) -> Set<int> {
    Set::new(|j: int| 0 <= j <= usize::MAX && log.contains(BlastEvent::Center(j as usize)))
}

/// With no event shown twice, there are as many blasts as bricks blasted.
proof fn lemma_blast_count_sites(log: Seq<BlastEvent>)
    requires
        log.no_duplicates(),
    ensures
        blast_sites(log).finite(),
        blast_count(log) == blast_sites(log).len(),
    decreases log.len(),
{
    if log.len() == 0 {
        assert(blast_sites(log) =~= Set::<int>::empty());
    } else {
        let rest = log.drop_first();
        assert(rest.no_duplicates()) by {
            assert forall|i: int, j: int| 0 <= i < rest.len() && 0 <= j < rest.len() && i != j implies rest[i]
                != rest[j] by {
                assert(rest[i] == log[i + 1] && rest[j] == log[j + 1]);
            }
        }
        lemma_blast_count_sites(rest);
        match log[0] {
            BlastEvent::Center(x) => {
                assert forall|j: int| #[trigger] blast_sites(log).contains(j) == blast_sites(rest).insert(
                    x as int,
                ).contains(j) by {
                    if blast_sites(log).contains(j) && j != x as int {
                        let k = choose|k: int| 0 <= k < log.len() && log[k] == BlastEvent::Center(j as usize);
                        assert(k != 0);
                        assert(rest[k - 1] == log[k]);
                    }
                    if blast_sites(rest).contains(j) {
                        let k = choose|k: int| 0 <= k < rest.len() && rest[k] == BlastEvent::Center(j as usize);
                        assert(log[k + 1] == rest[k]);
                    }
                    if j == x as int {
                        assert(log[0] == BlastEvent::Center(j as usize));
                    }
                }
                assert(blast_sites(log) =~= blast_sites(rest).insert(x as int));
                assert(!blast_sites(rest).contains(x as int)) by {
                    if blast_sites(rest).contains(x as int) {
                        let k = choose|k: int| 0 <= k < rest.len() && rest[k] == BlastEvent::Center(x);
                        assert(log[k + 1] == log[0]);
                    }
                }
            },
            BlastEvent::Debris(_) => {
                assert forall|j: int| #[trigger] blast_sites(log).contains(j) == blast_sites(rest).contains(j) by {
                    if blast_sites(log).contains(j) {
                        let k = choose|k: int| 0 <= k < log.len() && log[k] == BlastEvent::Center(j as usize);
                        assert(k != 0);
                        assert(rest[k - 1] == log[k]);
                    }
                    if blast_sites(rest).contains(j) {
                        let k = choose|k: int| 0 <= k < rest.len() && rest[k] == BlastEvent::Center(j as usize);
                        assert(log[k + 1] == rest[k]);
                    }
                }
                assert(blast_sites(log) =~= blast_sites(rest));
            },
        }
    }
}

/// An explosion's log, led by the blast at the centre and followed by one blast at each
/// wrecked explosive brick, shows one blast more than there are such bricks, and so no
/// more than one more than there were live explosive bricks.
proof fn lemma_blasts_of_log(log: Seq<BlastEvent>, before: Seq<Brick>, after: Seq<Brick>, center: usize)
    requires
        log.len() >= 1,
        log[0] == BlastEvent::Center(center),
        events_distinct(log, 1),
        centers_in(log, 1, wrecked_explosive(before, after)),
        centers_cover(log, 1, wrecked_explosive(before, after)),
        before.len() <= usize::MAX,
    ensures
        blast_count(log) == 1 + wrecked_explosive(before, after).len(),
        blast_count(log) <= 1 + live_explosive(before).len(),
{
    let tail = log.drop_first();
    let we = wrecked_explosive(before, after);
    assert(tail.no_duplicates()) by {
        assert forall|i: int, j: int| 0 <= i < tail.len() && 0 <= j < tail.len() && i != j implies tail[i]
            != tail[j] by {
            assert(tail[i] == log[i + 1] && tail[j] == log[j + 1]);
        }
    }
    lemma_blast_count_sites(tail);
    assert forall|j: int| #[trigger] blast_sites(tail).contains(j) == we.contains(j) by {
        if blast_sites(tail).contains(j) {
            let k = choose|k: int| 0 <= k < tail.len() && tail[k] == BlastEvent::Center(j as usize);
            assert(log[k + 1] == tail[k]);
        }
        if we.contains(j) {
            let k = choose|k: int| 1 <= k < log.len() && log[k] == BlastEvent::Center(j as usize);
            assert(tail[k - 1] == log[k]);
        }
    }
    assert(blast_sites(tail) =~= we);
    lemma_bounded_finite(live_explosive(before), before.len() as int);
    assert(we.subset_of(live_explosive(before)));
    vstd::set_lib::lemma_len_subset(we, live_explosive(before));
}

proof fn lemma_has_event_prefix(log: Seq<BlastEvent>, log2: Seq<BlastEvent>, from: int, e: BlastEvent)
    requires
        0 <= from,
        has_event(log, from, e),
        log2.len() >= log.len(),
        log2.subrange(0, log.len() as int) == log,
    ensures
        has_event(log2, from, e),
{
    let k = choose|k: int| from <= k < log.len() && log[k] == e;
    assert(log2[k] == log2.subrange(0, log.len() as int)[k]);
}

proof fn lemma_has_event_at(log: Seq<BlastEvent>, from: int, k: int)
    requires
        from <= k < log.len(),
    ensures
        has_event(log, from, log[k]),
{
}

proof fn lemma_has_event_later(log: Seq<BlastEvent>, from: int, later: int, e: BlastEvent)
    requires
        from <= later,
        has_event(log, later, e),
    ensures
        has_event(log, from, e),
{
    let k = choose|k: int| later <= k < log.len() && log[k] == e;
}

/// Dead bricks stay dead and kinds stay.
proof fn lemma_only_wrecks_trans(a: Seq<Brick>, b: Seq<Brick>, c: Seq<Brick>)
    requires
        only_wrecks(a, b),
        only_wrecks(b, c),
    ensures
        only_wrecks(a, c),
{
    assert forall|i: int| 0 <= i < a.len() implies #[trigger] c[i] == a[i] || (live(a[i]) && c[i]
        == wrecked_brick(a[i])) by {
        assert(b[i] == a[i] || (live(a[i]) && b[i] == wrecked_brick(a[i])));
        assert(c[i] == b[i] || (live(b[i]) && c[i] == wrecked_brick(b[i])));
    }
}

/// A set of bricks is finite when every brick in it has an index below `n`.
proof fn lemma_bounded_finite(s: Set<int>, n: int)
    requires
        0 <= n,
        forall|i: int| #[trigger] s.contains(i) ==> 0 <= i < n,
    ensures
        s.finite(),
        s.len() <= n,
{
    vstd::set_lib::lemma_int_range(0, n);
    assert(s.subset_of(vstd::set_lib::set_int_range(0, n)));
    vstd::set_lib::lemma_len_subset(s, vstd::set_lib::set_int_range(0, n));
}

/// A set closed under an explosion stays closed, once bricks were wrecked, under the
/// explosion of an explosive brick that it holds.
proof fn lemma_closed_narrows(
    s: Set<int>,
    b0: Seq<Brick>,
    bt: Seq<Brick>,
    center: int,
    j: int,
    near: Seq<Vec<bool>>,
)
    requires
        blast_closed(s, b0, center, near),
        only_wrecks(b0, bt),
        0 <= j < b0.len(),
        s.contains(j),
        b0[j].kind == BrickKind::Explosive,
    ensures
        blast_closed(s, bt, j, near),
{
    assert forall|k: int|
        0 <= k < bt.len() && live(bt[k]) && in_range(near, j, k) implies #[trigger] s.contains(k) by {
        assert(bt[k] == b0[k] || (live(b0[k]) && bt[k] == wrecked_brick(b0[k])));
        assert(s.contains(j) && in_range(near, j, k));
    }
    assert forall|jj: int, k: int|
        #![trigger s.contains(jj), in_range(near, jj, k)]
        0 <= jj < bt.len() && s.contains(jj) && bt[jj].kind == BrickKind::Explosive && 0 <= k
            < bt.len() && live(bt[k]) && in_range(near, jj, k) implies s.contains(k) by {
        assert(bt[k] == b0[k] || (live(b0[k]) && bt[k] == wrecked_brick(b0[k])));
        assert(bt[jj] == b0[jj] || (live(b0[jj]) && bt[jj] == wrecked_brick(b0[jj])));
    }
}

/// The first pass of an explosion at `center`, over the first `k` bricks in index order:
/// it wrecks each live brick in range of the centre, shows its debris, and lists each
/// explosive brick so wrecked to set off next. Gives the bricks after the pass, the debris
/// shown, and the bricks to set off.
pub open spec fn direct_pass(base: Seq<Brick>, center: usize, near: Seq<Vec<bool>>, k: nat) -> (Seq<
    Brick,
>, Seq<BlastEvent>, Seq<usize>)
    decreases k,
{
    if k == 0 {
        (base, Seq::empty(), Seq::empty())
    } else {
        let prev = direct_pass(base, center, near, (k - 1) as nat);
        let i = k - 1;
        if live(base[i]) && in_range(near, center as int, i) {
            (
                prev.0.update(i, wrecked_brick(base[i])),
                prev.1.push(BlastEvent::Debris(i as usize)),
                if base[i].kind == BrickKind::Explosive {
                    prev.2.push(i as usize)
                } else {
                    prev.2
                },
            )
        } else {
            prev
        }
    }
}

/// An explosion at `center`, nesting chained explosions at most `depth` deep: the blast
/// at the centre, the first pass, then each listed explosive brick's own explosion in turn,
/// each run in full before the next. Gives the bricks after it and the events shown.
pub open spec fn run_blast(base: Seq<Brick>, center: usize, near: Seq<Vec<bool>>, depth: nat) -> (Seq<
    Brick,
>, Seq<BlastEvent>)
    decreases depth, 0nat,
{
    if depth == 0 {
        (base, seq![BlastEvent::Center(center)])
    } else {
        let pass = direct_pass(base, center, near, base.len());
        run_chain(
            pass.0,
            pass.2,
            near,
            (depth - 1) as nat,
            seq![BlastEvent::Center(center)] + pass.1,
        )
    }
}

/// The chained explosions of the bricks `chained`, in order, after the events `log`.
pub open spec fn run_chain(
    bricks: Seq<Brick>,
    chained: Seq<usize>,
    near: Seq<Vec<bool>>,
    depth: nat,
    log: Seq<BlastEvent>,
) -> (Seq<Brick>, Seq<BlastEvent>)
    decreases depth, chained.len(),
{
    if chained.len() == 0 {
        (bricks, log)
    } else {
        let next = run_blast(bricks, chained[0], near, depth);
        run_chain(next.0, chained.drop_first(), near, depth, log + next.1)
    }
}

/// The outcome of an explosion at `center`: chained explosions never nest deeper than
/// there are live bricks, so this depth lets every one of them run in full.
pub open spec fn blast_outcome(base: Seq<Brick>, center: usize, near: Seq<Vec<bool>>) -> (Seq<Brick>, Seq<
    BlastEvent,
>) {
    run_blast(base, center, near, live_count(base) + 1)
}

/// Runs an explosion at `center` over `bricks`, appending what to show to `log`; returns
/// the number of bricks wrecked.
fn blast(
    bricks: &mut Vec<Brick>,
    center: usize,
    near: &Vec<Vec<bool>>,
    log: &mut Vec<BlastEvent>,
    Ghost(fuel): Ghost<nat>,
) -> (kills: usize)
    requires
        forall|k: int| 0 <= k < old(bricks)@.len() ==> brick_wf(#[trigger] old(bricks)@[k]),
        center < old(bricks)@.len(),
        near_table(near@, old(bricks)@.len() as int),
        fuel > live_count(old(bricks)@),
    ensures
        forall|k: int| 0 <= k < final(bricks)@.len() ==> brick_wf(#[trigger] final(bricks)@[k]),
        only_wrecks(old(bricks)@, final(bricks)@),
        wrecked(old(bricks)@, final(bricks)@) == blast_reach(old(bricks)@, center as int, near@),
        blast_closed(wrecked(old(bricks)@, final(bricks)@), old(bricks)@, center as int, near@),
        forall|s: Set<int>|
            #[trigger] blast_closed(s, old(bricks)@, center as int, near@) ==> wrecked(
                old(bricks)@,
                final(bricks)@,
            ).subset_of(s),
        kills == wrecked(old(bricks)@, final(bricks)@).len(),
        live_count(final(bricks)@) <= live_count(old(bricks)@),
        final(bricks)@ == run_blast(old(bricks)@, center, near@, fuel).0,
        final(log)@.subrange(old(log)@.len() as int, final(log)@.len() as int) == run_blast(
            old(bricks)@,
            center,
            near@,
            fuel,
        ).1,
        final(log)@.len() > old(log)@.len(),
        final(log)@.subrange(0, old(log)@.len() as int) == old(log)@,
        final(log)@[old(log)@.len() as int] == BlastEvent::Center(center),
        events_fit(
            final(log)@,
            old(log)@.len() as int,
            old(bricks)@,
            final(bricks)@,
            center as int,
        ),
        events_distinct(final(log)@, old(log)@.len() as int + 1),
        centers_in(final(log)@, old(log)@.len() as int + 1, wrecked_explosive(old(bricks)@, final(bricks)@)),
        debris_cover(final(log)@, old(log)@.len() as int, wrecked(old(bricks)@, final(bricks)@)),
        centers_cover(
            final(log)@,
            old(log)@.len() as int + 1,
            wrecked_explosive(old(bricks)@, final(bricks)@),
        ),
    decreases fuel,
{
        let ghost b0 = bricks@;
        let ghost log0 = log@;
        let ghost reach = blast_reach(b0, center as int, near@);
        let n = bricks.len();
        let mut kills: usize = 0;
        proof {
            lemma_bounded_finite(reach, n as int);
            lemma_bounded_finite(wrecked(b0, b0), n as int);
            assert(wrecked(b0, b0) =~= Set::<int>::empty());
        }
        log.push(BlastEvent::Center(center));
        proof {
            assert(log@.subrange(log0.len() as int + 1, log@.len() as int) =~= Seq::<BlastEvent>::empty());
            assert(direct_pass(b0, center, near@, 0).0 == b0);
        }
        let mut chained: Vec<usize> = Vec::new();
        let mut i: usize = 0;
        while i < n
            invariant
                n == b0.len(),
                bricks@.len() == n,
                center < n,
                i <= n,
                near_table(near@, n as int),
                b0 == old(bricks)@,
                reach == blast_reach(b0, center as int, near@),
                reach.finite(),
                direct_pass(b0, center, near@, i as nat).0 == bricks@,
                direct_pass(b0, center, near@, i as nat).1 == log@.subrange(
                    log0.len() as int + 1,
                    log@.len() as int,
                ),
                direct_pass(b0, center, near@, i as nat).2 == chained@,
                forall|k: int|
                    0 <= k < i ==> #[trigger] bricks@[k] == if live(b0[k]) && in_range(
                        near@,
                        center as int,
                        k,
                    ) {
                        wrecked_brick(b0[k])
                    } else {
                        b0[k]
                    },
                forall|k: int| i <= k < n ==> #[trigger] bricks@[k] == b0[k],
                forall|t: int|
                    0 <= t < chained@.len() ==> {
                        &&& #[trigger] chained@[t] < i
                        &&& live(b0[chained@[t] as int])
                        &&& b0[chained@[t] as int].kind == BrickKind::Explosive
                        &&& in_range(near@, center as int, chained@[t] as int)
                    },
                forall|u1: int, u2: int|
                    0 <= u1 < u2 < chained@.len() ==> #[trigger] chained@[u1] < #[trigger] chained@[u2],
                forall|k: int|
                    0 <= k < i && live(b0[k]) && b0[k].kind == BrickKind::Explosive && in_range(
                        near@,
                        center as int,
                        k,
                    ) ==> chained@.contains(k as usize),
                wrecked(b0, bricks@).finite(),
                wrecked(b0, bricks@).subset_of(reach),
                kills == wrecked(b0, bricks@).len(),
                forall|k: int| 0 <= k < bricks@.len() ==> brick_wf(#[trigger] bricks@[k]),
                fuel > live_count(b0),
                live_count(b0) >= live_count(bricks@) + chained@.len(),
                log@.len() > log0.len(),
                log@.subrange(0, log0.len() as int) == log0,
                log@[log0.len() as int] == BlastEvent::Center(center),
                log0 == old(log)@,
                events_fit(log@, log0.len() as int, b0, bricks@, center as int),
                events_distinct(log@, log0.len() as int + 1),
                forall|k: int| log0.len() as int + 1 <= k < log@.len() ==> (#[trigger] log@[k]) is Debris,
                debris_cover(log@, log0.len() as int, wrecked(b0, bricks@)),
            decreases n - i,
        {
            let b = bricks[i];
            let ghost before = bricks@;
            let ghost chained_before = chained@;
            let ghost log_before = log@;
            if b.alive && b.kind != BrickKind::Indestructible && near[center][i] {
                let wb = Brick { hits: 0, alive: false, ..b };
                proof {
                    lemma_live_count_update(before, i as int, wb);
                    assert(wb == wrecked_brick(b0[i as int]));
                    let after = before.update(i as int, wb);
                    assert(wrecked(b0, after) =~= wrecked(b0, before).insert(i as int));
                    assert(!wrecked(b0, before).contains(i as int));
                    vstd::set::axiom_set_insert_len(wrecked(b0, before), i as int);
                    assert forall|s: Set<int>| #[trigger]
                        blast_closed(s, b0, center as int, near@) implies s.contains(i as int) by {
                        assert(live(b0[i as int]) && in_range(near@, center as int, i as int));
                    }
                    assert(reach.contains(i as int));
                    assert(wrecked(b0, after).subset_of(reach));
                    vstd::set_lib::lemma_len_subset(wrecked(b0, after), reach);
                    lemma_bounded_finite(wrecked(b0, after), n as int);
                }
                bricks.set(i, wb);
                kills = kills + 1;
                log.push(BlastEvent::Debris(i));
                if b.kind == BrickKind::Explosive {
                    chained.push(i);
                }
                proof {
                    let cur = bricks@;
                    assert(log@ == log_before.push(BlastEvent::Debris(i)));
                    assert(log@.subrange(log0.len() as int + 1, log@.len() as int) =~= log_before.subrange(
                        log0.len() as int + 1,
                        log_before.len() as int,
                    ).push(BlastEvent::Debris(i)));
                    assert forall|k1: int, k2: int|
                        #![trigger log@[k1], log@[k2]]
                        log0.len() as int + 1 <= k1 < log@.len() && log0.len() as int + 1 <= k2 < log@.len() && k1
                            != k2 implies log@[k1] != log@[k2] by {
                        if k1 < log_before.len() && k2 < log_before.len() {
                            assert(log@[k1] == log_before[k1] && log@[k2] == log_before[k2]);
                        } else if k1 < log_before.len() {
                            assert(log@[k1] == log_before[k1]);
                            assert(event_fits(log_before[k1], b0, before, center as int));
                            assert(log_before[k1] is Debris);
                        } else {
                            assert(log@[k2] == log_before[k2]);
                            assert(event_fits(log_before[k2], b0, before, center as int));
                            assert(log_before[k2] is Debris);
                        }
                    }
                    assert forall|x: int| #[trigger] wrecked(b0, cur).contains(x) implies has_event(
                        log@,
                        log0.len() as int,
                        BlastEvent::Debris(x as usize),
                    ) by {
                        if x == i {
                            lemma_has_event_at(log@, log0.len() as int, log@.len() - 1);
                        } else {
                            assert(cur[x] == before[x]);
                            assert(wrecked(b0, before).contains(x));
                            assert(log@.subrange(0, log_before.len() as int) =~= log_before);
                            lemma_has_event_prefix(
                                log_before,
                                log@,
                                log0.len() as int,
                                BlastEvent::Debris(x as usize),
                            );
                        }
                    }
                }
            }
            proof {
                assert forall|k: int| 0 <= k < bricks@.len() implies brick_wf(
                    #[trigger] bricks@[k],
                ) by {
                    assert(brick_wf(before[k]));
                }
                assert forall|k: int|
                    0 <= k < i + 1 && live(b0[k]) && b0[k].kind == BrickKind::Explosive && in_range(
                        near@,
                        center as int,
                        k,
                    ) implies chained@.contains(k as usize) by {
                    if k == i {
                        assert(b == b0[k]);
                        assert(chained@[chained@.len() - 1] == i);
                    } else {
                        assert(chained_before.contains(k as usize));
                        let u = choose|u: int|
                            0 <= u < chained_before.len() && chained_before[u] == k as usize;
                        assert(chained@[u] == chained_before[u]);
                    }
                }
            }
            i = i + 1;
        }
        let ghost b1 = bricks@;
        proof {
            assert(only_wrecks(b0, b1));
            assert(only_wrecks(b1, b1));
            assert forall|s: Set<int>| #[trigger] blast_closed(s, b0, center as int, near@) implies wrecked(
                b0,
                b1,
            ).subset_of(s) by {
                assert forall|k: int| wrecked(b0, b1).contains(k) implies s.contains(k) by {
                    assert(b1[k] == if live(b0[k]) && in_range(near@, center as int, k) {
                        wrecked_brick(b0[k])
                    } else {
                        b0[k]
                    });
                }
            }
        }
        proof {
            assert(chained@.skip(0) =~= chained@);
            assert(log@.subrange(log0.len() as int, log@.len() as int) =~= seq![BlastEvent::Center(center)]
                + log@.subrange(log0.len() as int + 1, log@.len() as int));
        }
        let mut t: usize = 0;
        while t < chained.len()
            invariant
                n == b0.len(),
                bricks@.len() == n,
                center < n,
                t <= chained@.len(),
                near_table(near@, n as int),
                b0 == old(bricks)@,
                reach == blast_reach(b0, center as int, near@),
                reach.finite(),
                run_chain(
                    bricks@,
                    chained@.skip(t as int),
                    near@,
                    (fuel - 1) as nat,
                    log@.subrange(log0.len() as int, log@.len() as int),
                ).0 == run_blast(b0, center, near@, fuel).0,
                run_chain(
                    bricks@,
                    chained@.skip(t as int),
                    near@,
                    (fuel - 1) as nat,
                    log@.subrange(log0.len() as int, log@.len() as int),
                ).1 == run_blast(b0, center, near@, fuel).1,
                forall|k: int|
                    0 <= k < n ==> #[trigger] b1[k] == if live(b0[k]) && in_range(
                        near@,
                        center as int,
                        k,
                    ) {
                        wrecked_brick(b0[k])
                    } else {
                        b0[k]
                    },
                forall|u: int|
                    0 <= u < chained@.len() ==> {
                        &&& #[trigger] chained@[u] < n
                        &&& live(b0[chained@[u] as int])
                        &&& b0[chained@[u] as int].kind == BrickKind::Explosive
                        &&& in_range(near@, center as int, chained@[u] as int)
                    },
                forall|u1: int, u2: int|
                    0 <= u1 < u2 < chained@.len() ==> #[trigger] chained@[u1] < #[trigger] chained@[u2],
                forall|k: int|
                    0 <= k < n && live(b0[k]) && b0[k].kind == BrickKind::Explosive && in_range(
                        near@,
                        center as int,
                        k,
                    ) ==> chained@.contains(k as usize),
                only_wrecks(b0, bricks@),
                only_wrecks(b1, bricks@),
                // each chained brick already exploded has wrecked what lies in its range
                forall|u: int, k: int|
                    #![trigger chained@[u], bricks@[k]]
                    0 <= u < t && 0 <= k < n && live(b0[k]) && in_range(near@, chained@[u] as int, k)
                        ==> !bricks@[k].alive,
                // so has each explosive brick wrecked by a later explosion
                forall|j: int, k: int|
                    #![trigger bricks@[j], in_range(near@, j, k)]
                    0 <= j < n && b1[j].alive && !bricks@[j].alive && b0[j].kind
                        == BrickKind::Explosive && 0 <= k < n && live(b0[k]) && in_range(near@, j, k)
                        ==> !bricks@[k].alive,
                forall|s: Set<int>|
                    #[trigger] blast_closed(s, b0, center as int, near@) ==> wrecked(
                        b0,
                        bricks@,
                    ).subset_of(s),
                wrecked(b0, bricks@).finite(),
                wrecked(b0, bricks@).subset_of(reach),
                kills == wrecked(b0, bricks@).len(),
                forall|k: int| 0 <= k < bricks@.len() ==> brick_wf(#[trigger] bricks@[k]),
                fuel > live_count(b0),
                live_count(bricks@) <= live_count(b1),
                live_count(b0) >= live_count(b1) + chained@.len(),
                log@.len() > log0.len(),
                log@.subrange(0, log0.len() as int) == log0,
                log@[log0.len() as int] == BlastEvent::Center(center),
                log0 == old(log)@,
                events_fit(log@, log0.len() as int, b0, bricks@, center as int),
                events_distinct(log@, log0.len() as int + 1),
                centers_in(log@, log0.len() as int + 1, wrecked_explosive(b0, bricks@)),
                // a blast shown so far is at a brick standing after the direct wrecks, or at
                // a chained brick already exploded
                forall|k: int|
                    log0.len() as int + 1 <= k < log@.len() ==> match #[trigger] log@[k] {
                        BlastEvent::Center(x) => b1[x as int].alive || exists|u: int|
                            0 <= u < t && chained@[u] == x,
                        BlastEvent::Debris(_) => true,
                    },
                debris_cover(log@, log0.len() as int, wrecked(b0, bricks@)),
                forall|u: int|
                    0 <= u < t ==> has_event(
                        log@,
                        log0.len() as int + 1,
                        BlastEvent::Center(#[trigger] chained@[u]),
                    ),
                forall|jj: int|
                    #![trigger bricks@[jj]]
                    0 <= jj < n && b1[jj].alive && !bricks@[jj].alive && b0[jj].kind
                        == BrickKind::Explosive ==> has_event(
                        log@,
                        log0.len() as int + 1,
                        BlastEvent::Center(jj as usize),
                    ),
            decreases chained@.len() - t,
        {
            let j = chained[t];
            let ghost bt = bricks@;
            let ghost log_t = log@;
            proof {
                assert(live(b0[j as int]));
                assert(!b1[j as int].alive);
                assert(bt[j as int] == b1[j as int] || live(b1[j as int]));
                assert(wrecked(b0, bt).contains(j as int));
            }
            let child = blast(bricks, j, near, log, Ghost((fuel - 1) as nat));
            let ghost ct = bricks@;
            proof {
                lemma_only_wrecks_trans(b0, bt, ct);
                lemma_only_wrecks_trans(b1, bt, ct);
                assert(ct[j as int] == bt[j as int] || live(bt[j as int]));
                assert(wrecked(b0, ct).contains(j as int));
                // the count of wrecked bricks
                assert(wrecked(b0, ct) =~= wrecked(b0, bt) + wrecked(bt, ct)) by {
                    assert forall|k: int| wrecked(b0, ct).contains(k) implies (wrecked(b0, bt) + wrecked(
                        bt,
                        ct,
                    )).contains(k) by {
                        assert(bt[k] == b0[k] || live(b0[k]));
                    }
                    assert forall|k: int| (wrecked(b0, bt) + wrecked(bt, ct)).contains(k) implies wrecked(
                        b0,
                        ct,
                    ).contains(k) by {
                        assert(ct[k] == bt[k] || live(bt[k]));
                        assert(bt[k] == b0[k] || live(b0[k]));
                    }
                }
                lemma_bounded_finite(wrecked(bt, ct), n as int);
                lemma_bounded_finite(wrecked(b0, ct), n as int);
                assert(wrecked(b0, bt).disjoint(wrecked(bt, ct)));
                vstd::set_lib::lemma_set_disjoint_lens(wrecked(b0, bt), wrecked(bt, ct));
                // the chained brick's explosion wrecked what lies in its range
                assert forall|u: int, k: int|
                    #![trigger chained@[u], ct[k]]
                    0 <= u < t + 1 && 0 <= k < n && live(b0[k]) && in_range(near@, chained@[u] as int, k)
                        implies !ct[k].alive by {
                    assert(ct[k] == bt[k] || (live(bt[k]) && ct[k] == wrecked_brick(bt[k])));
                    assert(bt[k] == b0[k] || (live(b0[k]) && bt[k] == wrecked_brick(b0[k])));
                    if u < t {
                        assert(!bt[k].alive);
                    } else if live(bt[k]) {
                        assert(wrecked(bt, ct).contains(k));
                    }
                }
                assert forall|jj: int, k: int|
                    #![trigger ct[jj], in_range(near@, jj, k)]
                    0 <= jj < n && b1[jj].alive && !ct[jj].alive && b0[jj].kind == BrickKind::Explosive
                        && 0 <= k < n && live(b0[k]) && in_range(near@, jj, k) implies !ct[k].alive by {
                    assert(ct[k] == bt[k] || (live(bt[k]) && ct[k] == wrecked_brick(bt[k])));
                    assert(bt[k] == b0[k] || (live(b0[k]) && bt[k] == wrecked_brick(b0[k])));
                    assert(ct[jj] == bt[jj] || (live(bt[jj]) && ct[jj] == wrecked_brick(bt[jj])));
                    assert(bt[jj] == b0[jj] || (live(b0[jj]) && bt[jj] == wrecked_brick(b0[jj])));
                    if !bt[jj].alive {
                        assert(!bt[k].alive);
                    } else if live(bt[k]) {
                        assert(wrecked(bt, ct).contains(jj));
                        assert(wrecked(bt, ct).contains(k));
                    }
                }
                assert forall|s: Set<int>| #[trigger] blast_closed(s, b0, center as int, near@) implies wrecked(
                    b0,
                    ct,
                ).subset_of(s) by {
                    assert(wrecked(b0, bt).subset_of(s));
                    lemma_closed_narrows(s, b0, bt, center as int, j as int, near@);
                    assert(wrecked(bt, ct).subset_of(s));
                }
                assert(wrecked(b0, ct).subset_of(reach));
                // the events
                let l0 = log0.len() as int;
                let lt = log_t.len() as int;
                assert forall|k: int| 0 <= k < lt implies log@[k] == log_t[k] by {
                    assert(log@[k] == log@.subrange(0, lt)[k]);
                }
                assert(log@.subrange(0, l0) =~= log0) by {
                    assert forall|k: int| 0 <= k < l0 implies log@[k] == log0[k] by {
                        assert(log_t[k] == log_t.subrange(0, l0)[k]);
                    }
                }
                assert(log_t[l0] == BlastEvent::Center(center));
                assert forall|k: int| l0 <= k < log@.len() implies event_fits(
                    #[trigger] log@[k],
                    b0,
                    ct,
                    center as int,
                ) by {
                    if k < lt {
                        assert(event_fits(log_t[k], b0, bt, center as int));
                        match log_t[k] {
                            BlastEvent::Center(x) => {
                                assert(ct[x as int] == bt[x as int] || live(bt[x as int]));
                            },
                            BlastEvent::Debris(x) => {
                                assert(ct[x as int] == bt[x as int] || live(bt[x as int]));
                            },
                        }
                    } else {
                        assert(event_fits(log@[k], bt, ct, j as int));
                        match log@[k] {
                            BlastEvent::Center(x) => {
                                assert(bt[x as int] == b0[x as int] || live(b0[x as int]));
                            },
                            BlastEvent::Debris(x) => {
                                assert(bt[x as int] == b0[x as int] || live(b0[x as int]));
                            },
                        }
                    }
                }
                assert forall|k: int|
                    l0 + 1 <= k < log@.len() implies match #[trigger] log@[k] {
                        BlastEvent::Center(x) => wrecked_explosive(b0, ct).contains(x as int),
                        BlastEvent::Debris(_) => true,
                    } by {
                    if k < lt {
                        match log_t[k] {
                            BlastEvent::Center(x) => {
                                assert(wrecked_explosive(b0, bt).contains(x as int));
                                assert(ct[x as int] == bt[x as int] || live(bt[x as int]));
                            },
                            BlastEvent::Debris(_) => {},
                        }
                    } else if k > lt {
                        match log@[k] {
                            BlastEvent::Center(x) => {
                                assert(wrecked_explosive(bt, ct).contains(x as int));
                                assert(bt[x as int] == b0[x as int] || live(b0[x as int]));
                            },
                            BlastEvent::Debris(_) => {},
                        }
                    }
                }
                assert forall|k: int|
                    l0 + 1 <= k < log@.len() implies match #[trigger] log@[k] {
                        BlastEvent::Center(x) => b1[x as int].alive || exists|u: int|
                            0 <= u < t + 1 && chained@[u] == x,
                        BlastEvent::Debris(_) => true,
                    } by {
                    if k < lt {
                        match log_t[k] {
                            BlastEvent::Center(x) => {
                                if !b1[x as int].alive {
                                    let u = choose|u: int| 0 <= u < t && chained@[u] == x;
                                    assert(0 <= u < t + 1 && chained@[u] == x);
                                }
                            },
                            BlastEvent::Debris(_) => {},
                        }
                    } else if k == lt {
                        assert(chained@[t as int] == j);
                    } else {
                        match log@[k] {
                            BlastEvent::Center(x) => {
                                assert(wrecked_explosive(bt, ct).contains(x as int));
                                assert(bt[x as int] == b1[x as int] || live(b1[x as int]));
                            },
                            BlastEvent::Debris(_) => {},
                        }
                    }
                }
                assert forall|k1: int, k2: int|
                    #![trigger log@[k1], log@[k2]]
                    l0 + 1 <= k1 < log@.len() && l0 + 1 <= k2 < log@.len() && k1 != k2 implies log@[k1]
                        != log@[k2] by {
                    if k1 < lt && k2 < lt {
                        assert(log@[k1] == log_t[k1] && log@[k2] == log_t[k2]);
                    } else if k1 >= lt && k2 >= lt {
                        if k1 == lt || k2 == lt {
                            let k = if k1 == lt {
                                k2
                            } else {
                                k1
                            };
                            assert(event_fits(log@[k], bt, ct, j as int));
                            assert(log@[lt] == BlastEvent::Center(j));
                            match log@[k] {
                                BlastEvent::Center(x) => {
                                    assert(wrecked_explosive(bt, ct).contains(x as int));
                                },
                                BlastEvent::Debris(_) => {},
                            }
                        }
                    } else {
                        let (ke, kl) = if k1 < lt {
                            (k1, k2)
                        } else {
                            (k2, k1)
                        };
                        assert(log@[ke] == log_t[ke]);
                        assert(event_fits(log_t[ke], b0, bt, center as int));
                        if kl == lt {
                            match log_t[ke] {
                                BlastEvent::Center(x) => {
                                    if x == j {
                                        assert(!b1[j as int].alive);
                                        let u = choose|u: int| 0 <= u < t && chained@[u] == x;
                                        assert(chained@[u] < chained@[t as int]);
                                    }
                                },
                                BlastEvent::Debris(_) => {},
                            }
                        } else {
                            assert(event_fits(log@[kl], bt, ct, j as int));
                            match log_t[ke] {
                                BlastEvent::Center(x) => {
                                    assert(wrecked_explosive(b0, bt).contains(x as int));
                                    match log@[kl] {
                                        BlastEvent::Center(y) => {
                                            assert(wrecked_explosive(bt, ct).contains(y as int));
                                        },
                                        BlastEvent::Debris(_) => {},
                                    }
                                },
                                BlastEvent::Debris(x) => {
                                    match log@[kl] {
                                        BlastEvent::Center(_) => {},
                                        BlastEvent::Debris(y) => {
                                            assert(wrecked(bt, ct).contains(y as int));
                                        },
                                    }
                                },
                            }
                        }
                    }
                }
                assert forall|x: int| #[trigger] wrecked(b0, ct).contains(x) implies has_event(
                    log@,
                    l0,
                    BlastEvent::Debris(x as usize),
                ) by {
                    assert(ct[x] == bt[x] || live(bt[x]));
                    if bt[x].alive {
                        assert(wrecked(bt, ct).contains(x));
                        lemma_has_event_later(log@, l0, lt, BlastEvent::Debris(x as usize));
                    } else {
                        assert(wrecked(b0, bt).contains(x));
                        lemma_has_event_prefix(log_t, log@, l0, BlastEvent::Debris(x as usize));
                    }
                }
                assert forall|u: int|
                    0 <= u < t + 1 implies has_event(log@, l0 + 1, BlastEvent::Center(#[trigger] chained@[u])) by {
                    if u < t {
                        lemma_has_event_prefix(log_t, log@, l0 + 1, BlastEvent::Center(chained@[u]));
                    } else {
                        lemma_has_event_at(log@, l0 + 1, lt);
                    }
                }
                assert forall|jj: int|
                    #![trigger ct[jj]]
                    0 <= jj < n && b1[jj].alive && !ct[jj].alive && b0[jj].kind == BrickKind::Explosive
                        implies has_event(log@, l0 + 1, BlastEvent::Center(jj as usize)) by {
                    assert(ct[jj] == bt[jj] || live(bt[jj]));
                    assert(bt[jj] == b0[jj] || live(b0[jj]));
                    if bt[jj].alive {
                        assert(wrecked_explosive(bt, ct).contains(jj));
                        lemma_has_event_later(log@, l0 + 1, lt + 1, BlastEvent::Center(jj as usize));
                    } else {
                        lemma_has_event_prefix(log_t, log@, l0 + 1, BlastEvent::Center(jj as usize));
                    }
                }
            }
            proof {
                let rest = chained@.skip(t as int);
                assert(rest[0] == j);
                assert(rest.drop_first() =~= chained@.skip(t + 1));
                assert(log@.subrange(log0.len() as int, log@.len() as int) =~= log_t.subrange(
                    log0.len() as int,
                    log_t.len() as int,
                ) + log@.subrange(log_t.len() as int, log@.len() as int));
            }
            kills = kills + child;
            t = t + 1;
        }
        let ghost fin = bricks@;
        proof {
            let w = wrecked(b0, fin);
            assert forall|k: int|
                0 <= k < b0.len() && live(b0[k]) && in_range(near@, center as int, k) implies #[trigger] w.contains(
                k,
            ) by {
                assert(b1[k] == wrecked_brick(b0[k]));
                assert(fin[k] == b1[k] || (live(b1[k]) && fin[k] == wrecked_brick(b1[k])));
            }
            assert forall|j: int, k: int|
                #![trigger w.contains(j), in_range(near@, j, k)]
                0 <= j < b0.len() && w.contains(j) && b0[j].kind == BrickKind::Explosive && 0 <= k
                    < b0.len() && live(b0[k]) && in_range(near@, j, k) implies w.contains(k) by {
                if b1[j].alive {
                    assert(!fin[k].alive);
                } else {
                    assert(b1[j] == wrecked_brick(b0[j]) || b1[j] == b0[j]);
                    assert(live(b0[j]) && in_range(near@, center as int, j));
                    assert(chained@.contains(j as usize));
                    let u = choose|u: int| 0 <= u < chained@.len() && chained@[u] == j as usize;
                    assert(chained@[u] == j as usize);
                    assert(!fin[k].alive);
                }
            }
            assert(blast_closed(w, b0, center as int, near@));
            assert forall|k: int| #[trigger] reach.contains(k) implies w.contains(k) by {
                assert(blast_closed(w, b0, center as int, near@));
            }
            assert(w =~= reach);
            assert forall|j: int| #[trigger] wrecked_explosive(b0, fin).contains(j) implies has_event(
                log@,
                log0.len() as int + 1,
                BlastEvent::Center(j as usize),
            ) by {
                if !b1[j].alive {
                    assert(b1[j] == wrecked_brick(b0[j]) || b1[j] == b0[j]);
                    assert(chained@.contains(j as usize));
                    let u = choose|u: int| 0 <= u < chained@.len() && chained@[u] == j as usize;
                    assert(has_event(log@, log0.len() as int + 1, BlastEvent::Center(chained@[u])));
                }
            }
        }
        proof {
            assert(chained@.skip(t as int) =~= Seq::<usize>::empty());
        }
        kills
}

impl Game {
    /// An explosion at the brick `center`. `near` tells, for each pair of bricks, whether
    /// the second lies within blast range of the first (the caller measures this on the
    /// bricks' positions). Every live brick in range of the centre is wrecked for ten
    /// points; then each explosive brick so wrecked explodes in turn, in index order.
    ///
    /// The wrecked bricks are exactly the bricks that the explosion reaches: the least set
    /// closed under the blast, which holds the live bricks in range of the centre and the
    /// live bricks in range of each explosive brick it holds.
    /// Returns what to show: first the blast at the centre; then one blast at each wrecked
    /// explosive brick and the debris of each wrecked brick, each exactly once, in the order
    /// of `blast_outcome`: each blast is followed by the debris of what its first pass
    /// wrecked, in index order, and then by the explosions that it set off, each in full.
    /// Each explosion shows one blast, so there are one more explosions than explosive
    /// bricks wrecked, and never more than one more than live explosive bricks before.
    pub fn explode_around(&mut self, center: usize, near: &Vec<Vec<bool>>) -> (events: Vec<
        BlastEvent,
    >)
        requires
            old(self).wf(),
            center < old(self).bricks@.len(),
            near_table(near@, old(self).bricks@.len() as int),
            old(self).score + BLAST_POINTS * blast_reach(old(self).bricks@, center as int, near@).len()
                <= u32::MAX,
        ensures
            final(self).wf(),
            frame_step(*old(self), *final(self)),
            only_wrecks(old(self).bricks@, final(self).bricks@),
            wrecked(old(self).bricks@, final(self).bricks@) == blast_reach(
                old(self).bricks@,
                center as int,
                near@,
            ),
            blast_closed(
                wrecked(old(self).bricks@, final(self).bricks@),
                old(self).bricks@,
                center as int,
                near@,
            ),
            forall|s: Set<int>|
                #[trigger] blast_closed(s, old(self).bricks@, center as int, near@) ==> wrecked(
                    old(self).bricks@,
                    final(self).bricks@,
                ).subset_of(s),
            final(self).score == old(self).score + BLAST_POINTS * wrecked(
                old(self).bricks@,
                final(self).bricks@,
            ).len(),
            final(self).bricks@ == blast_outcome(old(self).bricks@, center, near@).0,
            events@ == blast_outcome(old(self).bricks@, center, near@).1,
            events@.len() >= 1,
            events@[0] == BlastEvent::Center(center),
            events_fit(events@, 0, old(self).bricks@, final(self).bricks@, center as int),
            events_distinct(events@, 1),
            centers_in(events@, 1, wrecked_explosive(old(self).bricks@, final(self).bricks@)),
            debris_cover(events@, 0, wrecked(old(self).bricks@, final(self).bricks@)),
            centers_cover(events@, 1, wrecked_explosive(old(self).bricks@, final(self).bricks@)),
            blast_count(events@) == 1 + wrecked_explosive(old(self).bricks@, final(self).bricks@).len(),
            blast_count(events@) <= 1 + live_explosive(old(self).bricks@).len(),
            final(self).paddle_w == old(self).paddle_w,
            final(self).lives == old(self).lives,
            final(self).level == old(self).level,
            final(self).combo == old(self).combo,
            final(self).state == old(self).state,
            final(self).shield_active == old(self).shield_active,
            final(self).shield_hits == old(self).shield_hits,
            final(self).magnet_active == old(self).magnet_active,
    {
        let ghost b0 = self.bricks@;
        let n: usize = self.bricks.len();
        let mut events: Vec<BlastEvent> = Vec::new();
        let kills = blast(&mut self.bricks, center, near, &mut events, Ghost((live_count(b0) + 1) as nat));
        proof {
            assert(events@.subrange(0, 0) =~= Seq::<BlastEvent>::empty());
            assert(events@.subrange(0, events@.len() as int) =~= events@);
            lemma_bounded_finite(blast_reach(b0, center as int, near@), b0.len() as int);
            assert(b0.len() == n);
            lemma_blasts_of_log(events@, b0, self.bricks@, center);
        }
        self.score = self.score + BLAST_POINTS * (kills as u32);
        events
    }

    /// The number of bricks that an explosion at `center` would wreck, which is the number
    /// it reaches; an explosion earns ten points for each. Leaves the game as it is.
    pub fn blast_reach_size(&self, center: usize, near: &Vec<Vec<bool>>) -> (size: usize)
        requires
            self.wf(),
            center < self.bricks@.len(),
            near_table(near@, self.bricks@.len() as int),
        ensures
            size == blast_reach(self.bricks@, center as int, near@).len(),
    {
        let n = self.bricks.len();
        let mut copy: Vec<Brick> = Vec::new();
        for i in 0..n
            invariant
                n == self.bricks@.len(),
                copy@ == self.bricks@.subrange(0, i as int),
        {
            copy.push(self.bricks[i]);
            proof {
                assert(copy@ =~= self.bricks@.subrange(0, i + 1));
            }
        }
        proof {
            assert(copy@ =~= self.bricks@);
        }
        let mut log: Vec<BlastEvent> = Vec::new();
        blast(&mut copy, center, near, &mut log, Ghost((live_count(self.bricks@) + 1) as nat))
    }
}

} // verus!
