//! The bag randomizer: deals the seven kinds of piece in a random order, and
//! starts a new random order once all seven are dealt.

use crate::piece::{lemma_standard_wf, Piece, PieceKind, PieceView};
use rand::rngs::ThreadRng;
use rand::Rng;
use vstd::prelude::*;

verus! {

/// The generator of random numbers that `rand::thread_rng` hands out. Nothing
/// is known of what is inside.
#[verifier::external_type_specification]
#[verifier::external_body]
pub struct ExThreadRng(ThreadRng);

/// `rand::thread_rng` returns the calling thread's generator. Nothing is
/// claimed of the generator that comes back. The call takes no argument; it
/// panics if the operating system's random source cannot seed the generator.
pub assume_specification[ rand::thread_rng ]() -> (rng: ThreadRng);

/// Draws the next number from the generator, with `rand::Rng::gen`. Nothing
/// is claimed of the number: every `usize` may come back. No argument makes
/// the call panic; it panics if the operating system's random source fails
/// when the generator reseeds.
#[verifier::external_body]
fn draw(rng: &mut ThreadRng) -> (n: usize) {
    rng.gen::<usize>()
}

/// The seven kinds in the order in which a new set is laid out.
pub open spec fn all_kinds() -> Seq<PieceKind> {
    seq![
        PieceKind::O,
        PieceKind::L,
        PieceKind::J,
        PieceKind::T,
        PieceKind::S,
        PieceKind::Z,
        PieceKind::I,
    ]
}

/// `s` holds each of the seven kinds once: seven entries, none twice, none missing.
pub open spec fn is_full_set(s: Seq<PieceKind>) -> bool {
    &&& s.len() == 7
    &&& s.no_duplicates()
    &&& forall|k: PieceKind| s.contains(k)
}

/// What is left of `pool` once the entry at `i` is taken out and the last
/// entry has moved into its place.
pub open spec fn without<T>(pool: Seq<T>, i: int) -> Seq<T> {
    pool.update(i, pool.last()).drop_last()
}

/// The values of a list of pieces.
pub open spec fn views_of(pieces: Seq<Piece>) -> Seq<PieceView> {
    Seq::new(pieces.len(), |i: int| pieces[i]@)
}

/// The kinds of a list of pieces.
pub open spec fn kinds_of(pieces: Seq<PieceView>) -> Seq<PieceKind> {
    Seq::new(pieces.len(), |i: int| pieces[i].kind)
}

/// Every piece of the list is as its factory made it.
pub open spec fn all_standard(pieces: Seq<PieceView>) -> bool {
    forall|i: int|
        0 <= i < pieces.len() ==> #[trigger] pieces[i] == PieceView::standard(pieces[i].kind)
}

/// The mathematical value of a bag: the pieces still queued, front first, and
/// the kinds already dealt from the same set.
pub struct BagView {
    pub dealt: Seq<PieceKind>,
    pub queue: Seq<PieceView>,
}

impl BagView {
    /// The set that the bag is dealing from: the kinds that it dealt, then
    /// the kinds that it holds.
    pub open spec fn current_set(self) -> Seq<PieceKind> {
        self.dealt + kinds_of(self.queue)
    }

    /// The queue is not empty, its pieces are as their factories made them,
    /// and together with what was dealt they are a full set.
    pub open spec fn wf(self) -> bool {
        &&& self.queue.len() > 0
        &&& all_standard(self.queue)
        &&& is_full_set(self.current_set())
    }

    /// Nothing has been dealt from the current set.
    pub open spec fn is_fresh(self) -> bool {
        self.dealt.len() == 0
    }

    /// `next` is a bag that this bag can become by dealing its front piece:
    /// the rest of the queue where there is one, else a fresh full set.
    pub open spec fn deals_to(self, next: BagView) -> bool {
        &&& next.wf()
        &&& if self.queue.len() > 1 {
            next.queue == self.queue.skip(1) && next.dealt == self.dealt.push(self.queue[0].kind)
        } else {
            next.is_fresh()
        }
    }
}

/// Takes the piece at index `pick % pool.len()` out of the pool; the last
/// piece of the pool moves into its place.
pub fn take_piece(pool: &mut Vec<Piece>, pick: usize) -> (piece: Piece)
    requires
        old(pool)@.len() > 0,
    ensures
        piece == old(pool)@[pick as int % old(pool)@.len() as int],
        final(pool)@ == without(old(pool)@, pick as int % old(pool)@.len() as int),
{
    let i = pick % pool.len();
    pool.swap_remove(i)
}

/// A queue of pieces that deals every kind once before any kind again.
pub struct PieceBag {
    pieces: Vec<Piece>,
    dealt: Ghost<Seq<PieceKind>>,
}

impl View for PieceBag {
    type V = BagView;

    closed spec fn view(&self) -> BagView {
        BagView { dealt: self.dealt@, queue: views_of(self.pieces@) }
    }
}

impl PieceBag {
    /// A bag with a fresh random order of the seven pieces.
    ///
    /// The order comes from the thread's random number generator. No value
    /// that it draws makes this fail; it panics only if the operating system's
    /// random source fails.
    pub fn new() -> (bag: PieceBag)
        ensures
            bag@.wf(),
            bag@.is_fresh(),
            is_full_set(kinds_of(bag@.queue)),
    {
        let mut bag = PieceBag { pieces: Vec::new(), dealt: Ghost(Seq::empty()) };
        bag.fill_bag();
        proof {
            lemma_fresh_is_full(bag@);
        }
        bag
    }

    /// Removes and returns the piece at the front of the queue. When that
    /// empties the queue, a fresh random order of the seven pieces enters it.
    ///
    /// The new order comes from the thread's random number generator. No
    /// value that it draws makes this fail; it panics only if the operating
    /// system's random source fails.
    pub fn pop(&mut self) -> (piece: Piece)
        requires
            old(self)@.wf(),
        ensures
            final(self)@.wf(),
            piece@ == old(self)@.queue[0],
            piece@.wf(),
            old(self)@.deals_to(final(self)@),
            old(self)@.queue.len() == 1 ==> is_full_set(kinds_of(final(self)@.queue)),
    {
        proof {
            lemma_standard_wf(self@.queue[0].kind);
        }
        let ghost before = self@.queue;
        let piece = self.pieces.remove(0);
        assert(self@.queue =~= before.skip(1));
        assert(piece@ == before[0]);
        if self.pieces.is_empty() {
            self.dealt = Ghost(Seq::empty());
            self.fill_bag();
            proof {
                lemma_fresh_is_full(self@);
            }
        } else {
            self.dealt = Ghost(self.dealt@.push(piece@.kind));
            assert(self@.current_set() =~= old(self)@.current_set());
            assert forall|i: int| 0 <= i < self@.queue.len() implies #[trigger] self@.queue[i]
                == PieceView::standard(self@.queue[i].kind) by {
                assert(self@.queue[i] == before[i + 1]);
            }
        }
        piece
    }

    /// A copy of the piece at the front of the queue; the bag stays as it is.
    pub fn peek(&self) -> (piece: Piece)
        requires
            self@.wf(),
        ensures
            piece@ == self@.queue[0],
            piece@.wf(),
    {
        proof {
            lemma_standard_wf(self@.queue[0].kind);
        }
        self.pieces[0].clone()
    }

    /// Lays out the seven pieces and moves them into the empty queue one by
    /// one, each time the one that a random number picks. Whatever numbers
    /// are drawn, the queue then holds seven pieces, each kind once, each as
    /// its factory made it.
    pub(crate) fn fill_bag(&mut self)
        requires
            old(self)@.queue.len() == 0,
        ensures
            final(self)@.wf(),
            final(self)@.is_fresh(),
            final(self)@.queue.len() == 7,
            is_full_set(kinds_of(final(self)@.queue)),
            all_standard(final(self)@.queue),
    {
        let mut pool: Vec<Piece> = vec![
            Piece::new_o(),
            Piece::new_l(),
            Piece::new_j(),
            Piece::new_t(),
            Piece::new_s(),
            Piece::new_z(),
            Piece::new_i(),
        ];
        self.dealt = Ghost(Seq::empty());
        proof {
            lemma_all_kinds_full();
            assert(kinds_of(self@.queue) + kinds_of(views_of(pool@)) =~= all_kinds());
        }
        let mut rng = rand::thread_rng();
        while !pool.is_empty()
            invariant
                self@.dealt.len() == 0,
                all_standard(views_of(pool@)),
                all_standard(self@.queue),
                is_full_set(kinds_of(self@.queue) + kinds_of(views_of(pool@))),
            decreases pool@.len(),
        {
            let pick = draw(&mut rng);
            let ghost i = pick as int % pool@.len() as int;
            let ghost before = views_of(pool@);
            let ghost queue = self@.queue;
            let piece = take_piece(&mut pool, pick);
            self.pieces.push(piece);
            proof {
                lemma_take_keeps_set(kinds_of(queue), kinds_of(before), i);
                assert(self@.queue =~= queue.push(before[i]));
                assert(views_of(pool@) =~= without(before, i));
                assert(kinds_of(self@.queue) =~= kinds_of(queue).push(kinds_of(before)[i]));
                assert(kinds_of(views_of(pool@)) =~= without(kinds_of(before), i));
            }
        }
        assert(kinds_of(self@.queue) + kinds_of(views_of(pool@)) =~= kinds_of(self@.queue));
        assert(self@.current_set() =~= kinds_of(self@.queue));
    }
}

/// The queue of a fresh bag is a full set.
pub proof fn lemma_fresh_is_full(bag: BagView)
    requires
        bag.wf(),
        bag.is_fresh(),
    ensures
        is_full_set(kinds_of(bag.queue)),
{
    assert(bag.current_set() =~= kinds_of(bag.queue));
}

/// In a full set every kind stands at one index and at no other.
pub proof fn lemma_full_set_once(s: Seq<PieceKind>, k: PieceKind)
    requires
        is_full_set(s),
    ensures
        exists|i: int|
            0 <= i < s.len() && s[i] == k && forall|j: int| 0 <= j < s.len() && s[j] == k ==> j == i,
{
    assert(s.contains(k));
    let i = choose|i: int| 0 <= i < s.len() && s[i] == k;
    assert(forall|j: int| 0 <= j < s.len() && s[j] == k ==> j == i);
}

/// Seven deals in a row from a fresh bag hand out its queue from front to
/// back, which is each kind once, and leave a fresh bag.
pub proof fn lemma_seven_deals(bags: Seq<BagView>)
    requires
        bags.len() == 8,
        bags[0].wf(),
        bags[0].is_fresh(),
        forall|i: int| 0 <= i < 7 ==> (#[trigger] bags[i]).deals_to(bags[i + 1]),
    ensures
        is_full_set(kinds_of(bags[0].queue)),
        forall|i: int| 0 <= i < 7 ==> (#[trigger] bags[i]).queue[0] == bags[0].queue[i],
        bags[7].wf(),
        bags[7].is_fresh(),
{
    let first = bags[0].queue;
    lemma_fresh_is_full(bags[0]);
    assert forall|i: int| 0 <= i < 7 implies (#[trigger] bags[i]).queue == first.skip(i) by {
        lemma_deals_in_order(bags, i);
    }
    assert(bags[6].deals_to(bags[7]));
}

/// The seven kinds in their laying-out order are a full set.
proof fn lemma_all_kinds_full()
    ensures
        is_full_set(all_kinds()),
{
    let s = all_kinds();
    assert forall|k: PieceKind| s.contains(k) by {
        match k {
            PieceKind::O => assert(s[0] == k),
            PieceKind::L => assert(s[1] == k),
            PieceKind::J => assert(s[2] == k),
            PieceKind::T => assert(s[3] == k),
            PieceKind::S => assert(s[4] == k),
            PieceKind::Z => assert(s[5] == k),
            PieceKind::I => assert(s[6] == k),
        }
    }
}

/// Moving one entry from the pool to the end of the queue keeps the two
/// together a full set.
proof fn lemma_take_keeps_set(queue: Seq<PieceKind>, pool: Seq<PieceKind>, i: int)
    requires
        0 <= i < pool.len(),
        is_full_set(queue + pool),
    ensures
        is_full_set(queue.push(pool[i]) + without(pool, i)),
{
    let a = queue + pool;
    let b = queue.push(pool[i]) + without(pool, i);
    let q = queue.len() as int;
    let last = pool.len() - 1;
    // where the entry at index `j` of `b` stands in `a`
    let from = |j: int|
        if j < q {
            j
        } else if j == q {
            q + i
        } else if j - q - 1 == i {
            q + last
        } else {
            j - 1
        };
    assert forall|j: int| 0 <= j < b.len() implies 0 <= from(j) < a.len() && b[j] == a[from(j)] by {
    }
    assert forall|j1: int, j2: int| 0 <= j1 < b.len() && 0 <= j2 < b.len() && j1 != j2 implies b[j1]
        != b[j2] by {
        assert(from(j1) != from(j2));
        assert(b[j1] == a[from(j1)]);
        assert(b[j2] == a[from(j2)]);
    }
    assert forall|k: PieceKind| b.contains(k) by {
        assert(a.contains(k));
        let t = choose|t: int| 0 <= t < a.len() && a[t] == k;
        let j = if t < q {
            t
        } else if t == q + i {
            q
        } else if t == q + last {
            q + 1 + i
        } else {
            t + 1
        };
        assert(0 <= j < b.len());
        assert(from(j) == t);
        assert(b[j] == k);
    }
}

/// After `i` deals from a fresh bag, with `i` below seven, the queue is what
/// the first queue held behind its first `i` pieces.
proof fn lemma_deals_in_order(bags: Seq<BagView>, i: int)
    requires
        bags.len() == 8,
        bags[0].wf(),
        bags[0].is_fresh(),
        forall|j: int| 0 <= j < 7 ==> (#[trigger] bags[j]).deals_to(bags[j + 1]),
        0 <= i < 7,
    ensures
        bags[i].queue == bags[0].queue.skip(i),
    decreases i,
{
    let first = bags[0].queue;
    lemma_fresh_is_full(bags[0]);
    if i == 0 {
        assert(first.skip(0) =~= first);
    } else {
        lemma_deals_in_order(bags, i - 1);
        assert(bags[i - 1].deals_to(bags[i]));
        assert(first.skip(i - 1).skip(1) =~= first.skip(i));
    }
}

} // verus!
