//! Host keys held in the window and the C64 matrix keys they press. Matrix keys are reference
//! counted, so the SHIFT implied by CRSR UP does not lift a physically held Shift key, and a host
//! key pressed twice (no release seen) presses once.

use std::collections::HashMap;

use vstd::prelude::*;
use vstd::std_specs::hash::spec_keys_iter;
use vstd::std_specs::iter::IteratorSpec;

verus! {

broadcast use vstd::std_specs::hash::group_hash_axioms;

/// A key of the C64 keyboard matrix, and whether the host key that maps to it also needs SHIFT
/// (CRSR UP is SHIFT + CRSR DOWN).
#[derive(Clone, Copy, Debug, PartialEq, Eq, Structural)]
pub struct MatrixKey {
    pub row: u8,
    pub col: u8,
    pub shift: bool,
}

/// The left SHIFT key of the matrix (row 1, column 7).
pub open spec fn spec_lshift() -> MatrixKey {
    MatrixKey { row: 1, col: 7, shift: false }
}

/// The left SHIFT key of the matrix (row 1, column 7).
pub fn lshift() -> (k: MatrixKey)
    ensures
        k == spec_lshift(),
{
    MatrixKey { row: 1, col: 7, shift: false }
}

/// An input from the host to the emulated machine.
#[derive(Clone, Copy, Debug, PartialEq, Eq)]
pub enum HostInput {
    /// A key of the C64 matrix goes down or up.
    Key { row: u8, col: u8, down: bool },
    /// The menu button (F12).
    MenuButton(bool),
    /// The C64 RESTORE key.
    Restore(bool),
}

/// A matrix position as one number: row × 256 + column.
pub open spec fn key_pos(row: u8, col: u8) -> u16 {
    (row as int * 256 + col as int) as u16
}

/// The position of the left SHIFT key.
pub open spec fn shift_pos() -> u16 {
    key_pos(1, 7)
}

/// The held host keys whose matrix key is at `p`.
pub open spec fn holders(m: Map<u32, MatrixKey>, p: u16) -> Set<u32> {
    m.dom().filter(|h: u32| key_pos(m[h].row, m[h].col) == p)
}

/// The held host keys that also need SHIFT.
pub open spec fn shifters(m: Map<u32, MatrixKey>) -> Set<u32> {
    m.dom().filter(|h: u32| m[h].shift)
}

/// How many presses hold the matrix position `p` down, given the held host keys `m`: one per host
/// key at `p`, and at SHIFT also one per host key that needs it.
pub open spec fn presses(m: Map<u32, MatrixKey>, p: u16) -> nat {
    holders(m, p).len() + if p == shift_pos() {
        shifters(m).len()
    } else {
        0
    }
}

/// The matrix event for the position of `k`.
pub open spec fn key_event(k: MatrixKey, down: bool) -> HostInput {
    HostInput::Key { row: k.row, col: k.col, down }
}

/// The events of pressing the new host key `key` while `m` is held: SHIFT first if the key needs
/// it and SHIFT was up, then the key itself if it was up.
pub open spec fn press_events(m: Map<u32, MatrixKey>, key: MatrixKey) -> Seq<HostInput> {
    let kp = key_pos(key.row, key.col);
    (if key.shift && presses(m, shift_pos()) == 0 {
        seq![key_event(spec_lshift(), true)]
    } else {
        seq![]
    }) + (if presses(m, kp) + (if key.shift && kp == shift_pos() {
        1int
    } else {
        0int
    }) == 0 {
        seq![key_event(key, true)]
    } else {
        seq![]
    })
}

/// The events of releasing the held host key `key` while `m` (which holds it) is held: the key
/// itself if nothing else holds it, then SHIFT if the key needed it and nothing else holds SHIFT.
pub open spec fn release_events(m: Map<u32, MatrixKey>, key: MatrixKey) -> Seq<HostInput> {
    let kp = key_pos(key.row, key.col);
    (if presses(m, kp) == 1 {
        seq![key_event(key, false)]
    } else {
        seq![]
    }) + (if key.shift && presses(m, shift_pos()) - (if kp == shift_pos() {
        1int
    } else {
        0int
    }) == 1 {
        seq![key_event(spec_lshift(), false)]
    } else {
        seq![]
    })
}

/// `e` reports the matrix position it names going up, a position that `before` held down and
/// `after` no longer does.
pub open spec fn lifted(before: Map<u32, MatrixKey>, after: Map<u32, MatrixKey>, e: HostInput) -> bool {
    &&& e matches HostInput::Key { row, col, down }
    &&& !e->down
    &&& presses(before, key_pos(e->row, e->col)) > 0
    &&& presses(after, key_pos(e->row, e->col)) == 0
}

proof fn lemma_key_pos_injective(r1: u8, c1: u8, r2: u8, c2: u8)
    ensures
        key_pos(r1, c1) == key_pos(r2, c2) ==> r1 == r2 && c1 == c2,
{
}

proof fn lemma_release_lifts(m: Map<u32, MatrixKey>, code: u32)
    requires
        m.dom().finite(),
        m.contains_key(code),
    ensures
        release_events(m, m[code]).no_duplicates(),
        forall|e: HostInput|
            release_events(m, m[code]).contains(e) <==> #[trigger] lifted(m, m.remove(code), e),
        forall|p: u16| presses(m.remove(code), p) <= #[trigger] presses(m, p),
{
    let key = m[code];
    let kp = key_pos(key.row, key.col);
    let m2 = m.remove(code);
    let ev = release_events(m, key);
    assert forall|p: u16| presses(m2, p) <= #[trigger] presses(m, p) by {
        lemma_presses_remove(m, code, p);
    }
    lemma_presses_remove(m, code, kp);
    lemma_presses_remove(m, code, shift_pos());
    assert forall|e: HostInput| ev.contains(e) <==> #[trigger] lifted(m, m2, e) by {
        match e {
          HostInput::Key { row, col, down } => {
            lemma_presses_remove(m, code, key_pos(row, col));
            lemma_key_pos_injective(row, col, key.row, key.col);
            lemma_key_pos_injective(row, col, 1, 7);
            if ev.contains(e) {
                let i = choose|i: int| 0 <= i < ev.len() && ev[i] == e;
                assert(lifted(m, m2, e));
            }
            if lifted(m, m2, e) {
                if key_pos(row, col) == kp {
                    assert(e == key_event(key, false));
                    if key.shift && kp == shift_pos() {
                        assert(ev[ev.len() - 1] == e);
                    } else {
                        assert(ev[0] == e);
                    }
                } else {
                    assert(e == key_event(spec_lshift(), false));
                    assert(ev[ev.len() - 1] == e);
                }
            }
          },
          _ => {
            if ev.contains(e) {
                let i = choose|i: int| 0 <= i < ev.len() && ev[i] == e;
            }
          },
        }
    }
}

/// Pressing `key` for the host key `code` keeps every press count within `u32`.
pub open spec fn press_fits(m: Map<u32, MatrixKey>, code: u32, key: MatrixKey) -> bool {
    !m.contains_key(code) ==> {
        &&& presses(m.insert(code, key), shift_pos()) <= u32::MAX
        &&& presses(m.insert(code, key), key_pos(key.row, key.col)) <= u32::MAX
    }
}

proof fn lemma_presses_insert(m: Map<u32, MatrixKey>, c: u32, k: MatrixKey, p: u16)
    requires
        m.dom().finite(),
        !m.contains_key(c),
    ensures
        presses(m.insert(c, k), p) == presses(m, p) + (if key_pos(k.row, k.col) == p {
            1int
        } else {
            0int
        }) + (if k.shift && p == shift_pos() {
            1int
        } else {
            0int
        }),
{
    let m2 = m.insert(c, k);
    if key_pos(k.row, k.col) == p {
        assert(holders(m2, p) =~= holders(m, p).insert(c));
    } else {
        assert(holders(m2, p) =~= holders(m, p));
    }
    if k.shift {
        assert(shifters(m2) =~= shifters(m).insert(c));
    } else {
        assert(shifters(m2) =~= shifters(m));
    }
}

proof fn lemma_presses_remove(m: Map<u32, MatrixKey>, c: u32, p: u16)
    requires
        m.dom().finite(),
        m.contains_key(c),
    ensures
        presses(m.remove(c), p) == presses(m, p) - (if key_pos(m[c].row, m[c].col) == p {
            1int
        } else {
            0int
        }) - (if m[c].shift && p == shift_pos() {
            1int
        } else {
            0int
        }),
{
    let m2 = m.remove(c);
    if key_pos(m[c].row, m[c].col) == p {
        assert(holders(m2, p) =~= holders(m, p).remove(c));
    } else {
        assert(holders(m2, p) =~= holders(m, p));
    }
    if m[c].shift {
        assert(shifters(m2) =~= shifters(m).remove(c));
    } else {
        assert(shifters(m2) =~= shifters(m));
    }
}

proof fn lemma_presses_empty(m: Map<u32, MatrixKey>, p: u16)
    requires
        m.dom() =~= Set::<u32>::empty(),
    ensures
        presses(m, p) == 0,
{
    assert(holders(m, p) =~= Set::<u32>::empty());
    assert(shifters(m) =~= Set::<u32>::empty());
}

/// The position of a matrix key.
fn pos_of(row: u8, col: u8) -> (p: u16)
    ensures
        p == key_pos(row, col),
{
    (row as u16) * 256 + (col as u16)
}

/// Host keys held in the window and the matrix keys they press.
pub struct HeldKeys {
    by_host: HashMap<u32, MatrixKey>,
    count: HashMap<u16, u32>,
}

impl HeldKeys {
    /// The held host keys (by key code) and the matrix key each presses.
    pub closed spec fn held(&self) -> Map<u32, MatrixKey> {
        self.by_host@
    }

    /// The matrix positions down, each with the number of presses holding it.
    pub closed spec fn counts(&self) -> Map<u16, u32> {
        self.count@
    }

    /// Every matrix position is down exactly while some held host key presses it, counted by
    /// [`presses`].
    pub closed spec fn wf(&self) -> bool {
        &&& self.by_host@.dom().finite()
        &&& forall|p: u16| #[trigger] self.count@.contains_key(p) <==> presses(self.by_host@, p) > 0
        &&& forall|p: u16|
            #[trigger] self.count@.contains_key(p) ==> self.count@[p] as nat == presses(
                self.by_host@,
                p,
            )
    }

    /// No key held, no matrix position down.
    pub fn new() -> (h: HeldKeys)
        ensures
            h.wf(),
            h.held() =~= Map::<u32, MatrixKey>::empty(),
            h.counts() =~= Map::<u16, u32>::empty(),
    {
        let h = HeldKeys { by_host: HashMap::new(), count: HashMap::new() };
        proof {
            assert forall|p: u16| presses(h.by_host@, p) == 0 by {
                lemma_presses_empty(h.by_host@, p);
            }
        }
        h
    }

    /// Whether no host key is held and no matrix position is down.
    pub fn is_empty(&self) -> (r: bool)
        ensures
            r == (self.held().len() == 0 && self.counts().len() == 0),
    {
        self.by_host.len() == 0 && self.count.len() == 0
    }

    /// One more press of the matrix key at `(row, col)`; reports it going down.
    fn down(&mut self, row: u8, col: u8, out: &mut Vec<HostInput>)
        requires
            (if old(self).count@.contains_key(key_pos(row, col)) {
                old(self).count@[key_pos(row, col)] as int
            } else {
                0int
            }) < u32::MAX,
            old(self).count@.contains_key(key_pos(row, col)) ==> old(self).count@[key_pos(row, col)]
                > 0,
        ensures
            final(self).by_host@ == old(self).by_host@,
            final(self).count@ == old(self).count@.insert(
                key_pos(row, col),
                (if old(self).count@.contains_key(key_pos(row, col)) {
                    old(self).count@[key_pos(row, col)] + 1
                } else {
                    1int
                }) as u32,
            ),
            final(out)@ == old(out)@ + (if old(self).count@.contains_key(key_pos(row, col)) {
                seq![]
            } else {
                seq![HostInput::Key { row, col, down: true }]
            }),
    {
        let p = pos_of(row, col);
        let n: u32 = match self.count.get(&p) {
            Some(n) => *n,
            None => 0,
        };
        self.count.insert(p, n + 1);
        if n + 1 == 1 {
            out.push(HostInput::Key { row, col, down: true });
            assert(out@ =~= old(out)@ + seq![HostInput::Key { row, col, down: true }]);
        } else {
            assert(old(out)@ + seq![] =~= old(out)@);
        }
    }

    /// One press fewer of the matrix key at `(row, col)`; reports it going up.
    fn up(&mut self, row: u8, col: u8, out: &mut Vec<HostInput>)
        requires
            old(self).count@.contains_key(key_pos(row, col)) ==> old(self).count@[key_pos(row, col)]
                > 0,
        ensures
            final(self).by_host@ == old(self).by_host@,
            old(self).count@.contains_key(key_pos(row, col)) ==> {
                let n = old(self).count@[key_pos(row, col)];
                &&& n == 1 ==> final(self).count@ == old(self).count@.remove(key_pos(row, col))
                    && final(out)@ == old(out)@.push(HostInput::Key { row, col, down: false })
                &&& n != 1 ==> final(self).count@ == old(self).count@.insert(
                    key_pos(row, col),
                    (n - 1) as u32,
                ) && final(out)@ == old(out)@
            },
            !old(self).count@.contains_key(key_pos(row, col)) ==> final(self).count@ == old(
                self,
            ).count@ && final(out)@ == old(out)@,
    {
        let p = pos_of(row, col);
        let n: u32 = match self.count.get(&p) {
            Some(n) => *n,
            None => {
                return;
            },
        };
        if n - 1 == 0 {
            self.count.remove(&p);
            out.push(HostInput::Key { row, col, down: false });
        } else {
            self.count.insert(p, n - 1);
        }
    }

    /// The host key `code` went down, mapped to `key` (a key already held keeps its matrix key):
    /// a key already held presses nothing more; else its matrix key, and SHIFT before it if it
    /// needs it, each go down unless something already holds them.
    pub fn press(&mut self, code: u32, key: MatrixKey) -> (out: Vec<HostInput>)
        requires
            old(self).wf(),
            old(self).held().contains_key(code) ==> old(self).held()[code] == key,
            press_fits(old(self).held(), code, key),
        ensures
            final(self).wf(),
            if old(self).held().contains_key(code) {
                final(self).held() == old(self).held() && out@ == Seq::<HostInput>::empty()
            } else {
                final(self).held() == old(self).held().insert(code, key) && out@ == press_events(
                    old(self).held(),
                    key,
                )
            },
            (final(self).held(), out@) == key_step(old(self).held(), KeyOp::Press(code, key)),
    {
        let ghost m = self.by_host@;
        let mut out: Vec<HostInput> = Vec::new();
        let prev = self.by_host.insert(code, key);
        if prev.is_some() {
            assert(self.by_host@ =~= m);
            return out;
        }
        let ghost m1 = self.by_host@;
        let ghost kp = key_pos(key.row, key.col);
        proof {
            lemma_presses_insert(m, code, key, shift_pos());
            lemma_presses_insert(m, code, key, kp);
        }
        if key.shift {
            self.down(1, 7, &mut out);
        }
        proof {
            assert(self.count@.contains_key(kp) ==> self.count@[kp] as int == presses(m, kp) + (
            if key.shift && kp == shift_pos() {
                1int
            } else {
                0int
            }));
        }
        self.down(key.row, key.col, &mut out);
        proof {
            assert forall|p: u16| #[trigger]
                self.count@.contains_key(p) <==> presses(m1, p) > 0 by {
                lemma_presses_insert(m, code, key, p);
            }
            assert forall|p: u16| #[trigger]
                self.count@.contains_key(p) implies self.count@[p] as nat == presses(m1, p) by {
                lemma_presses_insert(m, code, key, p);
            }
            assert(out@ =~= press_events(m, key));
        }
        out
    }

    /// The host key `code` went up: if it was held, its matrix key, and then SHIFT if it needed
    /// it, each go up unless something else still holds them. The events name exactly the
    /// positions that went up, each once.
    pub fn release(&mut self, code: u32) -> (out: Vec<HostInput>)
        requires
            old(self).wf(),
        ensures
            final(self).wf(),
            final(self).held() == old(self).held().remove(code),
            if old(self).held().contains_key(code) {
                out@ == release_events(old(self).held(), old(self).held()[code])
            } else {
                out@ == Seq::<HostInput>::empty()
            },
            out@.no_duplicates(),
            forall|e: HostInput|
                out@.contains(e) <==> #[trigger] lifted(old(self).held(), final(self).held(), e),
            forall|p: u16| presses(final(self).held(), p) <= #[trigger] presses(old(self).held(), p),
            (final(self).held(), out@) == key_step(old(self).held(), KeyOp::Release(code)),
    {
        let ghost m = self.by_host@;
        let mut out: Vec<HostInput> = Vec::new();
        match self.by_host.remove(&code) {
            None => {
                assert(self.by_host@ =~= m);
                assert(m.remove(code) =~= m);
                assert forall|e: HostInput| !#[trigger] lifted(m, m, e) by {}
                return out;
            },
            Some(key) => {
                let ghost m2 = self.by_host@;
                let ghost kp = key_pos(key.row, key.col);
                proof {
                    lemma_presses_remove(m, code, kp);
                    lemma_presses_remove(m, code, shift_pos());
                    lemma_release_lifts(m, code);
                    assert(holders(m, kp).contains(code));
                    if key.shift {
                        assert(shifters(m).contains(code));
                    }
                }
                self.up(key.row, key.col, &mut out);
                if key.shift {
                    self.up(1, 7, &mut out);
                }
                proof {
                    assert forall|p: u16| #[trigger]
                        self.count@.contains_key(p) <==> presses(m2, p) > 0 by {
                        lemma_presses_remove(m, code, p);
                    }
                    assert forall|p: u16| #[trigger]
                        self.count@.contains_key(p) implies self.count@[p] as nat == presses(
                        m2,
                        p,
                    ) by {
                        lemma_presses_remove(m, code, p);
                    }
                    assert(out@ =~= release_events(m, key));
                }
                out
            },
        }
    }

    /// Lifts everything held (macOS delivers no key releases for a window that lost focus): no
    /// host key stays held, no matrix position stays down, and every position that was down is
    /// reported going up exactly once, in the order the held keys are walked.
    pub fn release_all(&mut self) -> (out: Vec<HostInput>)
        requires
            old(self).wf(),
        ensures
            final(self).wf(),
            final(self).held() =~= Map::<u32, MatrixKey>::empty(),
            final(self).counts() =~= Map::<u16, u32>::empty(),
            out@.no_duplicates(),
            forall|e: HostInput|
                out@.contains(e) <==> #[trigger] lifted(old(self).held(), final(self).held(), e),
            key_op_valid(old(self).held(), KeyOp::ReleaseAll(out@)),
            (final(self).held(), out@) == key_step(old(self).held(), KeyOp::ReleaseAll(out@)),
    {
        let ghost m0 = self.by_host@;
        let mut codes: Vec<u32> = Vec::new();
        for c in it: self.by_host.keys()
            invariant
                codes@ == it.seq().take(it.index()).unref(),
        {
            codes.push(*c);
        }
        proof {
            assert(codes@ =~= spec_keys_iter(&self.by_host).remaining().unref());
        }
        let mut out: Vec<HostInput> = Vec::new();
        let mut i: usize = 0;
        while i < codes.len()
            invariant
                self.wf(),
                i <= codes.len(),
                codes@.no_duplicates(),
                codes@.to_set() == m0.dom(),
                forall|c: u32|
                    #[trigger] self.held().contains_key(c) <==> m0.contains_key(c)
                        && !codes@.take(i as int).contains(c),
                forall|c: u32| #[trigger] self.held().contains_key(c) ==> self.held()[c] == m0[c],
                forall|p: u16| presses(self.held(), p) <= #[trigger] presses(m0, p),
                out@.no_duplicates(),
                forall|e: HostInput| out@.contains(e) <==> #[trigger] lifted(m0, self.held(), e),
            decreases codes.len() - i,
        {
            let code = codes[i];
            let ghost h = self.held();
            proof {
                assert(codes@.to_set().contains(code));
                assert(!codes@.take(i as int).contains(code)) by {
                    if codes@.take(i as int).contains(code) {
                        let j = choose|j: int| 0 <= j < i && codes@.take(i as int)[j] == code;
                        assert(codes@[j] == codes@[i as int]);
                    }
                }
                assert(h.contains_key(code));
                lemma_release_lifts(h, code);
            }
            let mut ev = self.release(code);
            proof {
                let h2 = self.held();
                assert forall|c: u32| #[trigger]
                    h2.contains_key(c) <==> m0.contains_key(c) && !codes@.take(i + 1).contains(c) by {
                    let t = codes@.take(i as int);
                    assert(codes@.take(i + 1) =~= t.push(code));
                    if t.push(code).contains(c) && c != code {
                        let j = choose|j: int| 0 <= j < t.push(code).len() && t.push(code)[j] == c;
                        assert(t[j] == c);
                    }
                    if t.contains(c) {
                        let j = choose|j: int| 0 <= j < t.len() && t[j] == c;
                        assert(t.push(code)[j] == c);
                    }
                    assert(t.push(code)[i as int] == code);
                }
                assert forall|e: HostInput| (out@ + ev@).contains(e) <==> #[trigger] lifted(
                    m0,
                    h2,
                    e,
                ) by {
                    if (out@ + ev@).contains(e) {
                        let j = choose|j: int| 0 <= j < (out@ + ev@).len() && (out@ + ev@)[j] == e;
                        if j < out@.len() {
                            assert(out@[j] == e);
                            assert(out@.contains(e));
                            assert(lifted(m0, h, e));
                            let p = key_pos(e->row, e->col);
                            assert(presses(h2, p) <= presses(h, p));
                        } else {
                            assert(ev@[j - out@.len()] == e);
                            assert(ev@.contains(e));
                            assert(lifted(h, h2, e));
                            let p = key_pos(e->row, e->col);
                            assert(presses(h, p) <= presses(m0, p));
                        }
                    }
                    if lifted(m0, h2, e) {
                        let p = key_pos(e->row, e->col);
                        assert(presses(h, p) <= presses(m0, p));
                        if lifted(m0, h, e) {
                            assert(out@.contains(e));
                            let j = choose|j: int| 0 <= j < out@.len() && out@[j] == e;
                            assert((out@ + ev@)[j] == e);
                        } else {
                            assert(lifted(h, h2, e));
                            assert(ev@.contains(e));
                            let j = choose|j: int| 0 <= j < ev@.len() && ev@[j] == e;
                            assert((out@ + ev@)[out@.len() + j] == e);
                        }
                    }
                }
                assert forall|a: int, b: int|
                    0 <= a < b < (out@ + ev@).len() implies (out@ + ev@)[a] != (out@ + ev@)[b] by {
                    let all = out@ + ev@;
                    if b < out@.len() {
                        assert(all[a] == out@[a] && all[b] == out@[b]);
                    } else if a >= out@.len() {
                        assert(all[a] == ev@[a - out@.len()] && all[b] == ev@[b - out@.len()]);
                    } else {
                        let e = out@[a];
                        let f = ev@[b - out@.len()];
                        assert(all[a] == e && all[b] == f);
                        assert(out@.contains(e));
                        assert(ev@.contains(f));
                        assert(lifted(m0, h, e));
                        assert(lifted(h, h2, f));
                    }
                }
            }
            out.append(&mut ev);
            i = i + 1;
        }
        proof {
            assert(self.held() =~= Map::<u32, MatrixKey>::empty()) by {
                assert(codes@.take(codes@.len() as int) =~= codes@);
                assert forall|c: u32| !#[trigger] self.held().contains_key(c) by {
                    if m0.contains_key(c) {
                        assert(codes@.to_set().contains(c));
                    }
                }
            }
            assert forall|p: u16| !#[trigger] self.count@.contains_key(p) by {
                lemma_presses_empty(self.by_host@, p);
            }
            assert(self.count@ =~= Map::<u16, u32>::empty());
        }
        out
    }

    /// Whether [`HeldKeys::press`] may take `key` for `code`: a held host key keeps its matrix
    /// key, and the press counts stay within `u32`.
    pub fn can_press(&self, code: u32, key: MatrixKey) -> (r: bool)
        requires
            self.wf(),
        ensures
            r == ((self.held().contains_key(code) ==> self.held()[code] == key) && press_fits(
                self.held(),
                code,
                key,
            )),
    {
        match self.by_host.get(&code) {
            Some(k) => *k == key,
            None => {
                let ghost m = self.by_host@;
                let ghost kp = key_pos(key.row, key.col);
                proof {
                    lemma_presses_insert(m, code, key, shift_pos());
                    lemma_presses_insert(m, code, key, kp);
                }
                let ls = pos_of(1, 7);
                let kpos = pos_of(key.row, key.col);
                let c_shift: u64 = match self.count.get(&ls) {
                    Some(n) => *n as u64,
                    None => 0,
                };
                let c_key: u64 = match self.count.get(&kpos) {
                    Some(n) => *n as u64,
                    None => 0,
                };
                let same: u64 = if kpos == ls { 1 } else { 0 };
                let sh: u64 = if key.shift { 1 } else { 0 };
                c_shift + same + sh <= 0xffff_ffff && c_key + 1 + if kpos == ls { sh } else { 0 }
                    <= 0xffff_ffff
            },
        }
    }
}

impl Default for HeldKeys {
    /// No key held, no matrix position down.
    fn default() -> (h: HeldKeys)
        ensures
            h.wf(),
            h.held() =~= Map::<u32, MatrixKey>::empty(),
            h.counts() =~= Map::<u16, u32>::empty(),
    {
        HeldKeys::new()
    }
}

/// A key of the window, as the window maps it: the menu button (F12), the C64 RESTORE key, or a
/// host key (by its code) that maps to a matrix key.
#[derive(Clone, Copy, Debug, PartialEq, Eq)]
pub enum WindowKey {
    Menu,
    Restore,
    Matrix(u32, MatrixKey),
}

/// The window's keyboard state: the menu button and RESTORE, and the held host keys. Both
/// buttons are released on focus loss like the matrix keys.
pub struct WindowKeys {
    pub menu_down: bool,
    pub restore_down: bool,
    pub held: HeldKeys,
}

impl WindowKeys {
    /// Nothing down.
    pub fn new() -> (k: WindowKeys)
        ensures
            k.held.wf(),
            !k.menu_down,
            !k.restore_down,
            k.held.held() =~= Map::<u32, MatrixKey>::empty(),
    {
        WindowKeys { menu_down: false, restore_down: false, held: HeldKeys::new() }
    }

    /// A key event: a repeat is dropped (the firmware repeats held keys itself); the menu button
    /// and RESTORE report only a change of state; a matrix key is pressed or released in the held
    /// keys.
    pub fn key(&mut self, repeat: bool, which: WindowKey, down: bool) -> (out: Vec<HostInput>)
        requires
            old(self).held.wf(),
            down && !repeat ==> match which {
                WindowKey::Matrix(code, key) => {
                    &&& old(self).held.held().contains_key(code) ==> old(self).held.held()[code]
                        == key
                    &&& press_fits(old(self).held.held(), code, key)
                },
                _ => true,
            },
        ensures
            final(self).held.wf(),
            repeat ==> final(self).menu_down == old(self).menu_down && final(self).restore_down
                == old(self).restore_down && final(self).held.held() == old(self).held.held()
                && out@ == Seq::<HostInput>::empty(),
            !repeat ==> match which {
                WindowKey::Menu => final(self).menu_down == down && final(self).restore_down == old(
                    self,
                ).restore_down && final(self).held.held() == old(self).held.held() && out@ == (
                if old(self).menu_down == down {
                    Seq::<HostInput>::empty()
                } else {
                    seq![HostInput::MenuButton(down)]
                }),
                WindowKey::Restore => final(self).restore_down == down && final(self).menu_down
                    == old(self).menu_down && final(self).held.held() == old(self).held.held()
                    && out@ == (if old(self).restore_down == down {
                    Seq::<HostInput>::empty()
                } else {
                    seq![HostInput::Restore(down)]
                }),
                WindowKey::Matrix(code, key) => final(self).menu_down == old(self).menu_down
                    && final(self).restore_down == old(self).restore_down && if down {
                    if old(self).held.held().contains_key(code) {
                        final(self).held.held() == old(self).held.held() && out@ == Seq::<
                            HostInput,
                        >::empty()
                    } else {
                        final(self).held.held() == old(self).held.held().insert(code, key) && out@
                            == press_events(old(self).held.held(), key)
                    }
                } else {
                    final(self).held.held() == old(self).held.held().remove(code) && (if old(
                        self,
                    ).held.held().contains_key(code) {
                        out@ == release_events(old(self).held.held(), old(self).held.held()[code])
                    } else {
                        out@ == Seq::<HostInput>::empty()
                    })
                },
            },
    {
        if repeat {
            return Vec::new();
        }
        match which {
            WindowKey::Menu => {
                if self.menu_down == down {
                    return Vec::new();
                }
                self.menu_down = down;
                let mut out = Vec::new();
                out.push(HostInput::MenuButton(down));
                out
            },
            WindowKey::Restore => {
                if self.restore_down == down {
                    return Vec::new();
                }
                self.restore_down = down;
                let mut out = Vec::new();
                out.push(HostInput::Restore(down));
                out
            },
            WindowKey::Matrix(code, key) => {
                if down {
                    self.held.press(code, key)
                } else {
                    self.held.release(code)
                }
            },
        }
    }

    /// Focus lost: lifts every held matrix key, then the menu button and RESTORE if down.
    pub fn release_all(&mut self) -> (out: Vec<HostInput>)
        requires
            old(self).held.wf(),
        ensures
            final(self).held.wf(),
            !final(self).menu_down,
            !final(self).restore_down,
            final(self).held.held() =~= Map::<u32, MatrixKey>::empty(),
            final(self).held.counts() =~= Map::<u16, u32>::empty(),
            exists|keys: Seq<HostInput>|
                {
                    &&& keys.no_duplicates()
                    &&& forall|e: HostInput| #[trigger]
                        keys.contains(e) <==> lifted(old(self).held.held(), final(self).held.held(), e)
                    &&& out@ == keys + (if old(self).menu_down {
                        seq![HostInput::MenuButton(false)]
                    } else {
                        Seq::<HostInput>::empty()
                    }) + (if old(self).restore_down {
                        seq![HostInput::Restore(false)]
                    } else {
                        Seq::<HostInput>::empty()
                    })
                },
    {
        let mut out = self.held.release_all();
        let ghost keys = out@;
        if self.menu_down {
            self.menu_down = false;
            out.push(HostInput::MenuButton(false));
        }
        let ghost with_menu = out@;
        if self.restore_down {
            self.restore_down = false;
            out.push(HostInput::Restore(false));
        }
        proof {
            assert(with_menu =~= keys + (if old(self).menu_down {
                seq![HostInput::MenuButton(false)]
            } else {
                Seq::<HostInput>::empty()
            }));
            assert(out@ =~= with_menu + (if old(self).restore_down {
                seq![HostInput::Restore(false)]
            } else {
                Seq::<HostInput>::empty()
            }));
        }
        out
    }
}


proof fn lemma_len_pos_iff_nonempty(s: Set<u32>)
    requires
        s.finite(),
    ensures
        s.len() > 0 <==> exists|x: u32| s.contains(x),
{
    if s.len() > 0 {
        if !exists|x: u32| s.contains(x) {
            assert(s =~= Set::<u32>::empty());
        }
    }
}

/// A matrix position is down exactly while some held host key presses it: its own matrix key is
/// there, or it is SHIFT and the key needs SHIFT.
pub proof fn law_position_down_iff_pressed(h: &HeldKeys, p: u16)
    requires
        h.wf(),
    ensures
        h.counts().contains_key(p) <==> exists|c: u32|
            #![trigger h.held()[c]]
            h.held().contains_key(c) && (key_pos(h.held()[c].row, h.held()[c].col) == p || (p
                == shift_pos() && h.held()[c].shift)),
{
    let m = h.held();
    lemma_len_pos_iff_nonempty(holders(m, p));
    lemma_len_pos_iff_nonempty(shifters(m));
    if h.counts().contains_key(p) {
        if holders(m, p).len() > 0 {
            let c = choose|c: u32| holders(m, p).contains(c);
            assert(m.contains_key(c) && key_pos(m[c].row, m[c].col) == p);
        } else {
            let c = choose|c: u32| shifters(m).contains(c);
            assert(m.contains_key(c) && m[c].shift);
        }
    }
    if exists|c: u32|
        #![trigger m[c]]
        m.contains_key(c) && (key_pos(m[c].row, m[c].col) == p || (p == shift_pos() && m[c].shift)) {
        let c = choose|c: u32|
            #![trigger m[c]]
            m.contains_key(c) && (key_pos(m[c].row, m[c].col) == p || (p == shift_pos()
                && m[c].shift));
        if key_pos(m[c].row, m[c].col) == p {
            assert(holders(m, p).contains(c));
        } else {
            assert(shifters(m).contains(c));
        }
    }
}

/// A physically held SHIFT stays down while another key that implied SHIFT (CRSR UP) is released.
pub proof fn law_held_shift_survives_release(m: Map<u32, MatrixKey>, c: u32, s: u32)
    requires
        m.dom().finite(),
        m.contains_key(c),
        m.contains_key(s),
        s != c,
        key_pos(m[s].row, m[s].col) == shift_pos(),
    ensures
        presses(m.remove(c), shift_pos()) > 0,
{
    let m2 = m.remove(c);
    assert(holders(m2, shift_pos()).contains(s));
    lemma_len_pos_iff_nonempty(holders(m2, shift_pos()));
}

/// The up event for the position of a down event.
pub open spec fn as_release(e: HostInput) -> HostInput {
    match e {
        HostInput::Key { row, col, down } => HostInput::Key { row, col, down: false },
        other => other,
    }
}

/// A host key pressed and then released leaves the held keys as they were, and reports the
/// matrix keys it pressed going up in the reverse order they went down.
pub proof fn law_release_undoes_press(m: Map<u32, MatrixKey>, c: u32, k: MatrixKey)
    requires
        m.dom().finite(),
        !m.contains_key(c),
    ensures
        m.insert(c, k).remove(c) == m,
        release_events(m.insert(c, k), k) == press_events(m, k).reverse().map_values(
            |e: HostInput| as_release(e),
        ),
{
    let kp = key_pos(k.row, k.col);
    lemma_presses_insert(m, c, k, kp);
    lemma_presses_insert(m, c, k, shift_pos());
    assert(m.insert(c, k).remove(c) =~= m);
    assert(release_events(m.insert(c, k), k) =~= press_events(m, k).reverse().map_values(
        |e: HostInput| as_release(e),
    ));
}


/// Whether the matrix position `p` is down while `m` is held.
pub open spec fn is_down_in(m: Map<u32, MatrixKey>, p: u16) -> bool {
    presses(m, p) > 0
}

/// `e` reports a change of the position it names from `before` to `after`: down if the position
/// went down, up if it went up.
pub open spec fn changed(before: Map<u32, MatrixKey>, after: Map<u32, MatrixKey>, e: HostInput) -> bool {
    &&& e matches HostInput::Key { row, col, down }
    &&& is_down_in(before, key_pos(e->row, e->col)) != is_down_in(after, key_pos(e->row, e->col))
    &&& e->down == is_down_in(after, key_pos(e->row, e->col))
}

/// The event that reports position `p` going down (`down`) or up.
pub open spec fn event_at(p: u16, down: bool) -> HostInput {
    HostInput::Key { row: (p / 256) as u8, col: (p % 256) as u8, down }
}

/// `e` is a matrix event at position `p`.
pub open spec fn at_pos(e: HostInput, p: u16) -> bool {
    e matches HostInput::Key { row, col, down } && key_pos(row, col) == p
}

/// Whether a matrix event reports a key going down.
pub open spec fn is_down_event(e: HostInput) -> bool {
    match e {
        HostInput::Key { down, .. } => down,
        _ => false,
    }
}

/// The events of `evs` at position `p`, in order.
pub open spec fn events_at(evs: Seq<HostInput>, p: u16) -> Seq<HostInput>
    decreases evs.len(),
{
    if evs.len() == 0 {
        Seq::empty()
    } else {
        let r = events_at(evs.drop_last(), p);
        if at_pos(evs.last(), p) {
            r.push(evs.last())
        } else {
            r
        }
    }
}

proof fn lemma_events_at_concat(a: Seq<HostInput>, b: Seq<HostInput>, p: u16)
    ensures
        events_at(a + b, p) == events_at(a, p) + events_at(b, p),
    decreases b.len(),
{
    if b.len() == 0 {
        assert(a + b =~= a);
        assert(events_at(a, p) + events_at(b, p) =~= events_at(a, p));
    } else {
        assert((a + b).drop_last() =~= a + b.drop_last());
        lemma_events_at_concat(a, b.drop_last(), p);
        assert((a + b).last() == b.last());
        if at_pos(b.last(), p) {
            assert(events_at(a, p) + events_at(b.drop_last(), p).push(b.last()) =~= (events_at(a, p)
                + events_at(b.drop_last(), p)).push(b.last()));
        }
    }
}

proof fn lemma_events_at_members(s: Seq<HostInput>, p: u16)
    ensures
        forall|x: HostInput| #[trigger]
            events_at(s, p).contains(x) <==> s.contains(x) && at_pos(x, p),
        s.no_duplicates() ==> events_at(s, p).no_duplicates(),
    decreases s.len(),
{
    if s.len() > 0 {
        let t = s.drop_last();
        lemma_events_at_members(t, p);
        assert forall|x: HostInput| #[trigger] s.contains(x) <==> t.contains(x) || x == s.last() by {
            if s.contains(x) {
                let j = choose|j: int| 0 <= j < s.len() && s[j] == x;
                if j < s.len() - 1 {
                    assert(t[j] == x);
                }
            }
            if t.contains(x) {
                let j = choose|j: int| 0 <= j < t.len() && t[j] == x;
                assert(s[j] == x);
            }
            assert(s[s.len() - 1] == s.last());
        }
        let r = events_at(t, p);
        let l = s.last();
        if at_pos(l, p) {
            assert forall|x: HostInput| #[trigger] r.push(l).contains(x) <==> r.contains(x) || x == l by {
                if r.push(l).contains(x) {
                    let j = choose|j: int| 0 <= j < r.push(l).len() && r.push(l)[j] == x;
                    if j < r.len() {
                        assert(r[j] == x);
                    }
                }
                if r.contains(x) {
                    let j = choose|j: int| 0 <= j < r.len() && r[j] == x;
                    assert(r.push(l)[j] == x);
                }
                assert(r.push(l)[r.len() as int] == l);
            }
        }
        if s.no_duplicates() {
            assert(t.no_duplicates()) by {
                assert forall|i: int, j: int| 0 <= i < t.len() && 0 <= j < t.len() && i != j implies t[i]
                    != t[j] by {
                    assert(t[i] == s[i] && t[j] == s[j]);
                }
            }
            assert(!t.contains(l)) by {
                if t.contains(l) {
                    let j = choose|j: int| 0 <= j < t.len() && t[j] == l;
                    assert(s[j] == s[s.len() - 1]);
                }
            }
            if at_pos(l, p) {
                assert(!r.contains(l));
                assert forall|i: int, j: int|
                    0 <= i < r.push(l).len() && 0 <= j < r.push(l).len() && i != j implies r.push(l)[i]
                    != r.push(l)[j] by {
                    if i < r.len() && j < r.len() {
                        assert(r.push(l)[i] == r[i] && r.push(l)[j] == r[j]);
                    } else if i < r.len() {
                        assert(r.contains(r[i]));
                    } else if j < r.len() {
                        assert(r.contains(r[j]));
                    }
                }
            }
        }
    }
}

proof fn lemma_event_at_pos(row: u8, col: u8, down: bool)
    ensures
        event_at(key_pos(row, col), down) == (HostInput::Key { row, col, down }),
        at_pos(event_at(key_pos(row, col), down), key_pos(row, col)),
{
    let p = key_pos(row, col);
    assert(p == row as int * 256 + col as int);
    assert(p / 256 == row as int && p % 256 == col as int);
}

/// The events of one call, given as the exact changes from `before` to `after` with none twice,
/// name position `p` at most once: going down or up as `p` changed.
proof fn lemma_events_at_of_changes(
    s: Seq<HostInput>,
    before: Map<u32, MatrixKey>,
    after: Map<u32, MatrixKey>,
    p: u16,
)
    requires
        s.no_duplicates(),
        forall|e: HostInput| #[trigger] s.contains(e) <==> changed(before, after, e),
    ensures
        events_at(s, p) == if is_down_in(before, p) != is_down_in(after, p) {
            seq![event_at(p, is_down_in(after, p))]
        } else {
            Seq::<HostInput>::empty()
        },
{
    lemma_events_at_members(s, p);
    let ea = events_at(s, p);
    let d = is_down_in(after, p);
    let ev = event_at(p, d);
    assert forall|x: HostInput| #[trigger] ea.contains(x) implies x == ev by {
        assert(s.contains(x) && at_pos(x, p));
        assert(changed(before, after, x));
        match x {
            HostInput::Key { row, col, down } => {
                lemma_event_at_pos(row, col, down);
            },
            _ => {},
        }
    }
    if ea.len() >= 2 {
        assert(ea.contains(ea[0]) && ea.contains(ea[1]));
        assert(false);
    }
    let q = (p / 256) as u8;
    let r = (p % 256) as u8;
    assert(key_pos(q, r) == p);
    lemma_event_at_pos(q, r, d);
    if is_down_in(before, p) != is_down_in(after, p) {
        assert(changed(before, after, ev));
        assert(ea.contains(ev));
        assert(ea =~= seq![ev]);
    } else {
        if ea.len() == 1 {
            assert(ea.contains(ea[0]));
            assert(changed(before, after, ea[0]));
        }
        assert(ea =~= Seq::<HostInput>::empty());
    }
}

/// The events of pressing a host key that is not held name exactly the positions that went from
/// up to down, each once, as going down.
pub proof fn law_press_events_are_transitions(m: Map<u32, MatrixKey>, code: u32, key: MatrixKey)
    requires
        m.dom().finite(),
        !m.contains_key(code),
    ensures
        press_events(m, key).no_duplicates(),
        forall|e: HostInput|
            press_events(m, key).contains(e) <==> #[trigger] changed(m, m.insert(code, key), e),
{
    let m2 = m.insert(code, key);
    let kp = key_pos(key.row, key.col);
    let ev = press_events(m, key);
    lemma_presses_insert(m, code, key, kp);
    lemma_presses_insert(m, code, key, shift_pos());
    assert forall|e: HostInput| ev.contains(e) <==> #[trigger] changed(m, m2, e) by {
        match e {
            HostInput::Key { row, col, down } => {
                lemma_presses_insert(m, code, key, key_pos(row, col));
                lemma_key_pos_injective(row, col, key.row, key.col);
                lemma_key_pos_injective(row, col, 1, 7);
                if ev.contains(e) {
                    let i = choose|i: int| 0 <= i < ev.len() && ev[i] == e;
                    assert(changed(m, m2, e));
                }
                if changed(m, m2, e) {
                    if key_pos(row, col) == kp && !(key.shift && kp == shift_pos()) {
                        assert(e == key_event(key, true));
                        assert(ev[ev.len() - 1] == e);
                    } else {
                        assert(e == key_event(spec_lshift(), true));
                        assert(ev[0] == e);
                    }
                }
            },
            _ => {
                if ev.contains(e) {
                    let i = choose|i: int| 0 <= i < ev.len() && ev[i] == e;
                }
            },
        }
    }
}

/// The events of releasing a held host key name exactly the positions that went from down to up,
/// each once, as going up.
pub proof fn law_release_events_are_transitions(m: Map<u32, MatrixKey>, code: u32)
    requires
        m.dom().finite(),
        m.contains_key(code),
    ensures
        release_events(m, m[code]).no_duplicates(),
        forall|e: HostInput|
            release_events(m, m[code]).contains(e) <==> #[trigger] changed(m, m.remove(code), e),
{
    lemma_release_lifts(m, code);
    assert forall|e: HostInput|
        lifted(m, m.remove(code), e) <==> #[trigger] changed(m, m.remove(code), e) by {
        match e {
            HostInput::Key { row, col, down } => {
                assert(presses(m.remove(code), key_pos(row, col)) <= presses(m, key_pos(row, col)));
            },
            _ => {},
        }
    }
}

/// A call on [`HeldKeys`], with the events that `release_all` emitted (their order follows the
/// hash map's walk).
pub enum KeyOp {
    Press(u32, MatrixKey),
    Release(u32),
    ReleaseAll(Seq<HostInput>),
}

/// The held keys and the events after one call, as [`HeldKeys::press`], [`HeldKeys::release`]
/// and [`HeldKeys::release_all`] state them.
pub open spec fn key_step(m: Map<u32, MatrixKey>, op: KeyOp) -> (Map<u32, MatrixKey>, Seq<HostInput>) {
    match op {
        KeyOp::Press(code, key) => if m.contains_key(code) {
            (m, Seq::empty())
        } else {
            (m.insert(code, key), press_events(m, key))
        },
        KeyOp::Release(code) => if m.contains_key(code) {
            (m.remove(code), release_events(m, m[code]))
        } else {
            (m, Seq::empty())
        },
        KeyOp::ReleaseAll(evs) => (Map::empty(), evs),
    }
}

/// `op` is a call that can happen on `m`: `release_all` emits each lifted position once.
pub open spec fn key_op_valid(m: Map<u32, MatrixKey>, op: KeyOp) -> bool {
    match op {
        KeyOp::ReleaseAll(evs) => evs.no_duplicates() && forall|e: HostInput| #[trigger]
            evs.contains(e) <==> lifted(m, Map::empty(), e),
        _ => true,
    }
}

/// The held keys and all events after the calls `ops` from `m`.
pub open spec fn key_run(m: Map<u32, MatrixKey>, ops: Seq<KeyOp>) -> (Map<u32, MatrixKey>, Seq<HostInput>)
    decreases ops.len(),
{
    if ops.len() == 0 {
        (m, Seq::empty())
    } else {
        let (m1, e1) = key_run(m, ops.drop_last());
        let (m2, e2) = key_step(m1, ops.last());
        (m2, e1 + e2)
    }
}

/// Every call of `ops` can happen where it comes.
pub open spec fn key_ops_valid(m: Map<u32, MatrixKey>, ops: Seq<KeyOp>) -> bool
    decreases ops.len(),
{
    ops.len() == 0 || (key_ops_valid(m, ops.drop_last()) && key_op_valid(
        key_run(m, ops.drop_last()).0,
        ops.last(),
    ))
}

/// The events `evs` of one position alternate, starting from the state `start` (true: down) and
/// ending in `end`: each goes the other way from the one before, the first leaves `start`, the
/// last reaches `end`.
pub open spec fn alternates(evs: Seq<HostInput>, start: bool, end: bool) -> bool {
    if evs.len() == 0 {
        start == end
    } else {
        &&& is_down_event(evs[0]) == !start
        &&& is_down_event(evs.last()) == end
        &&& forall|j: int|
            0 <= j < evs.len() - 1 ==> is_down_event(#[trigger] evs[j]) != is_down_event(evs[j + 1])
    }
}

proof fn lemma_alternates_extend(a: Seq<HostInput>, b: Seq<HostInput>, s: bool, mid: bool, end: bool)
    requires
        alternates(a, s, mid),
        b.len() == 0 && mid == end || (b.len() == 1 && is_down_event(b[0]) == end && end != mid),
    ensures
        alternates(a + b, s, end),
{
    if b.len() == 0 {
        assert(a + b =~= a);
    } else if a.len() == 0 {
        assert(a + b =~= b);
    } else {
        let c = a + b;
        assert(c[a.len() as int] == b[0]);
        assert forall|j: int| 0 <= j < c.len() - 1 implies is_down_event(#[trigger] c[j])
            != is_down_event(c[j + 1]) by {
            if j < a.len() - 1 {
                assert(c[j] == a[j] && c[j + 1] == a[j + 1]);
            } else {
                assert(c[j] == a.last());
            }
        }
    }
}

proof fn lemma_step_changes(m: Map<u32, MatrixKey>, op: KeyOp)
    requires
        m.dom().finite(),
        key_op_valid(m, op),
    ensures
        key_step(m, op).0.dom().finite(),
        key_step(m, op).1.no_duplicates(),
        forall|e: HostInput| #[trigger]
            key_step(m, op).1.contains(e) <==> changed(m, key_step(m, op).0, e),
{
    match op {
        KeyOp::Press(code, key) => {
            if !m.contains_key(code) {
                law_press_events_are_transitions(m, code, key);
            } else {
                assert forall|e: HostInput| !#[trigger] changed(m, m, e) by {}
            }
        },
        KeyOp::Release(code) => {
            if m.contains_key(code) {
                law_release_events_are_transitions(m, code);
            } else {
                assert forall|e: HostInput| !#[trigger] changed(m, m, e) by {}
            }
        },
        KeyOp::ReleaseAll(evs) => {
            let z = Map::<u32, MatrixKey>::empty();
            assert forall|e: HostInput| lifted(m, z, e) <==> #[trigger] changed(m, z, e) by {
                match e {
                    HostInput::Key { row, col, down } => {
                        lemma_presses_empty(z, key_pos(row, col));
                    },
                    _ => {},
                }
            }
        },
    }
}

/// For any sequence of calls on held keys, the events of each matrix position alternate: down,
/// up, down, ... from the position's state before the calls, and the last one gives its state
/// after them. So a down event always means the position was up and is now down, and an up
/// event the reverse.
pub proof fn law_key_events_alternate(m: Map<u32, MatrixKey>, ops: Seq<KeyOp>, p: u16)
    requires
        m.dom().finite(),
        key_ops_valid(m, ops),
    ensures
        key_run(m, ops).0.dom().finite(),
        alternates(events_at(key_run(m, ops).1, p), is_down_in(m, p), is_down_in(key_run(m, ops).0, p)),
    decreases ops.len(),
{
    if ops.len() == 0 {
        assert(events_at(Seq::<HostInput>::empty(), p) =~= Seq::<HostInput>::empty());
    } else {
        let (m1, e1) = key_run(m, ops.drop_last());
        law_key_events_alternate(m, ops.drop_last(), p);
        let (m2, e2) = key_step(m1, ops.last());
        lemma_step_changes(m1, ops.last());
        lemma_events_at_of_changes(e2, m1, m2, p);
        lemma_events_at_concat(e1, e2, p);
        let b = events_at(e2, p);
        if is_down_in(m1, p) != is_down_in(m2, p) {
            assert(is_down_event(b[0]) == is_down_in(m2, p));
        }
        lemma_alternates_extend(events_at(e1, p), b, is_down_in(m, p), is_down_in(m1, p), is_down_in(m2, p));
    }
}

} // verus!
