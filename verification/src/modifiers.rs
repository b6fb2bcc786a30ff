//! Word garblers for a game of telephone.
//!
//! A [`Message`] is a list of words. A [`Garbler`] passes a message on,
//! possibly distorted; each garbler's exact behaviour is stated over the
//! message's words, and a garbler with memory also states how hearing a
//! message changes what it remembers.

use rand::Rng;
use vstd::prelude::*;
use vstd::string::StrSliceExecFns;
use vstd::string::StringExecFns;

verus! {

/// The ASCII whitespace characters that separate words.
pub open spec fn is_ascii_space(c: char) -> bool {
    c == ' ' || c == '\t' || c == '\n' || c == '\x0c' || c == '\r'
}

fn is_space_char(c: char) -> (r: bool)
    ensures
        r == is_ascii_space(c),
{
    c == ' ' || c == '\t' || c == '\n' || c == '\x0c' || c == '\r'
}

/// Splitting a text into words, scanning left to right with the word
/// collected so far in `cur`.
pub open spec fn split_acc(s: Seq<char>, cur: Seq<char>) -> Seq<Seq<char>>
    decreases s.len(),
{
    if s.len() == 0 {
        if cur.len() == 0 {
            Seq::empty()
        } else {
            seq![cur]
        }
    } else if is_ascii_space(s[0]) {
        (if cur.len() == 0 {
            Seq::<Seq<char>>::empty()
        } else {
            seq![cur]
        }) + split_acc(s.drop_first(), Seq::empty())
    } else {
        split_acc(s.drop_first(), cur.push(s[0]))
    }
}

/// The words of a text: the maximal runs of non-whitespace characters, in
/// order.
pub open spec fn split_words(s: Seq<char>) -> Seq<Seq<char>> {
    split_acc(s, Seq::empty())
}

/// Every word followed by a space, and a closing exclamation mark.
pub open spec fn spaced(words: Seq<Seq<char>>) -> Seq<char>
    decreases words.len(),
{
    if words.len() == 0 {
        Seq::empty()
    } else {
        spaced(words.drop_last()) + words.last() + seq![' ']
    }
}

/// How a message is printed.
pub open spec fn rendered(words: Seq<Seq<char>>) -> Seq<char> {
    spaced(words) + seq!['!']
}

/// A collection of words making up one message to be garbled.
pub struct Message {
    words: Vec<String>,
}

impl View for Message {
    type V = Seq<Seq<char>>;

    closed spec fn view(&self) -> Seq<Seq<char>> {
        self.words.deep_view()
    }
}

impl Default for Message {
    /// The empty message.
    fn default() -> (m: Message)
        ensures
            m@ == Seq::<Seq<char>>::empty(),
    {
        let m = Message { words: Vec::new() };
        proof {
            assert(m@ =~= Seq::<Seq<char>>::empty());
        }
        m
    }
}

impl Message {
    /// A message made of the given words.
    pub fn from_words(words: Vec<String>) -> (m: Message)
        ensures
            m@ == words.deep_view(),
    {
        Message { words }
    }

    /// The message's words.
    pub fn words(&self) -> (w: &Vec<String>)
        ensures
            w.deep_view() == self@,
    {
        &self.words
    }

    /// The message a text contains: the text split into whitespace-separated
    /// words.
    pub fn from_text(s: &str) -> (m: Message)
        ensures
            m@ == split_words(s@),
    {
        let n = s.unicode_len();
        let mut words: Vec<String> = Vec::new();
        let mut cur = String::new();
        let mut i: usize = 0;
        proof {
            assert(s@.skip(0) =~= s@);
        }
        while i < n
            invariant
                i <= n,
                n == s@.len(),
                split_words(s@) == words.deep_view() + split_acc(s@.skip(i as int), cur@),
            decreases n - i,
        {
            let ghost pre_words = words.deep_view();
            let ghost pre_cur = cur@;
            let c = s.get_char(i);
            proof {
                assert(s@.skip(i as int)[0] == s@[i as int]);
                assert(s@.skip(i as int).drop_first() =~= s@.skip(i + 1));
            }
            if is_space_char(c) {
                if !cur.as_str().is_empty() {
                    words.push(cur);
                    cur = String::new();
                    proof {
                        assert(words.deep_view() =~= pre_words.push(pre_cur));
                        assert(pre_words + (seq![pre_cur] + split_acc(s@.skip(i + 1), cur@))
                            =~= pre_words.push(pre_cur) + split_acc(s@.skip(i + 1), cur@));
                    }
                } else {
                    proof {
                        assert(cur@ =~= Seq::<char>::empty());
                        assert(Seq::<Seq<char>>::empty() + split_acc(s@.skip(i + 1), Seq::empty())
                            =~= split_acc(s@.skip(i + 1), Seq::empty()));
                    }
                }
            } else {
                let piece = s.substring_char(i, i + 1);
                cur.append(piece);
                proof {
                    assert(piece@ =~= seq![s@[i as int]]);
                    assert(cur@ =~= pre_cur.push(s@[i as int]));
                }
            }
            i += 1;
        }
        proof {
            assert(s@.skip(n as int) =~= Seq::<char>::empty());
        }
        if !cur.as_str().is_empty() {
            let ghost pre_words = words.deep_view();
            let ghost pre_cur = cur@;
            words.push(cur);
            proof {
                assert(words.deep_view() =~= pre_words.push(pre_cur));
                assert(pre_words + seq![pre_cur] =~= pre_words.push(pre_cur));
            }
        } else {
            proof {
                assert(words.deep_view() + Seq::<Seq<char>>::empty() =~= words.deep_view());
            }
        }
        Message { words }
    }

    /// Render the message: every word followed by a space, then an
    /// exclamation mark.
    pub fn render(&self) -> (r: String)
        ensures
            r@ == rendered(self@),
    {
        let mut out = String::new();
        let n = self.words.len();
        let mut i: usize = 0;
        while i < n
            invariant
                i <= n,
                n == self.words@.len(),
                out@ == spaced(self@.take(i as int)),
            decreases n - i,
        {
            out.append(self.words[i].as_str());
            out.append(" ");
            proof {
                reveal_strlit(" ");
                assert(" "@ =~= seq![' ']);
                assert(self@.take(i + 1).drop_last() =~= self@.take(i as int));
                assert(self@.take(i + 1).last() == self@[i as int]);
            }
            i += 1;
        }
        out.append("!");
        proof {
            reveal_strlit("!");
            assert("!"@ =~= seq!['!']);
            assert(self@.take(n as int) =~= self@);
        }
        out
    }
}

/// The words with every third one removed.
pub open spec fn third_removed(words: Seq<Seq<char>>) -> Seq<Seq<char>>
    decreases words.len(),
{
    if words.len() == 0 {
        Seq::empty()
    } else {
        third_removed(words.drop_last()) + if (words.len() - 1) % 3 == 2 {
            Seq::<Seq<char>>::empty()
        } else {
            seq![words.last()]
        }
    }
}

/// The words swapped pair-wise; a trailing unpaired word stays put.
pub open spec fn pair_swapped(words: Seq<Seq<char>>) -> Seq<Seq<char>>
    decreases words.len(),
{
    if words.len() <= 1 {
        words
    } else {
        seq![words[1], words[0]] + pair_swapped(words.skip(2))
    }
}

/// Something on the telephone line that passes a message on, possibly
/// distorted. What a garbler makes of the words it hears, and what hearing
/// them does to the garbler's own state, is stated by each implementation.
pub trait Garbler: Sized {
    /// The words this garbler passes on, given the words it heard.
    spec fn garble_words(self, words: Seq<Seq<char>>) -> Seq<Seq<char>>;

    /// How hearing these words changes the garbler's own state.
    spec fn steps_to(self, words: Seq<Seq<char>>, next: Self) -> bool;

    /// Pass the message on.
    fn garble(&mut self, message: Message) -> (r: Message)
        ensures
            r@ == old(self).garble_words(message@),
            old(self).steps_to(message@, *final(self)),
    ;
}

/// Passes on the message with no changes.
pub struct GoodListener;

impl Garbler for GoodListener {
    open spec fn garble_words(self, words: Seq<Seq<char>>) -> Seq<Seq<char>> {
        words
    }

    open spec fn steps_to(self, words: Seq<Seq<char>>, next: Self) -> bool {
        next == self
    }

    fn garble(&mut self, message: Message) -> (r: Message) {
        message
    }
}

/// Removes every third word in a message.
pub struct ThirdRemover;

impl Garbler for ThirdRemover {
    open spec fn garble_words(self, words: Seq<Seq<char>>) -> Seq<Seq<char>> {
        third_removed(words)
    }

    open spec fn steps_to(self, words: Seq<Seq<char>>, next: Self) -> bool {
        next == self
    }

    fn garble(&mut self, message: Message) -> (r: Message) {
        let ghost d = message@;
        let n = message.words.len();
        let mut kept: Vec<String> = Vec::new();
        let mut i: usize = 0;
        proof {
            assert(d.take(0) =~= Seq::<Seq<char>>::empty());
            assert(kept.deep_view() =~= Seq::<Seq<char>>::empty());
        }
        while i < n
            invariant
                i <= n,
                n == message.words@.len(),
                d == message@,
                kept.deep_view() == third_removed(d.take(i as int)),
            decreases n - i,
        {
            let ghost pre = kept.deep_view();
            proof {
                assert(d.take(i + 1).drop_last() =~= d.take(i as int));
                assert(d.take(i + 1).last() == d[i as int]);
            }
            if i % 3 != 2 {
                kept.push(message.words[i].clone());
                proof {
                    assert(kept.deep_view() =~= pre.push(d[i as int]));
                    assert(pre + seq![d[i as int]] =~= pre.push(d[i as int]));
                }
            } else {
                proof {
                    assert(pre + Seq::<Seq<char>>::empty() =~= pre);
                }
            }
            i += 1;
        }
        proof {
            assert(d.take(n as int) =~= d);
        }
        Message { words: kept }
    }
}

/// Pair-wise swaps the words in a message.
pub struct PairSwapper;

impl Garbler for PairSwapper {
    open spec fn garble_words(self, words: Seq<Seq<char>>) -> Seq<Seq<char>> {
        pair_swapped(words)
    }

    open spec fn steps_to(self, words: Seq<Seq<char>>, next: Self) -> bool {
        next == self
    }

    fn garble(&mut self, message: Message) -> (r: Message) {
        let ghost d = message@;
        let n = message.words.len();
        let mut swapped: Vec<String> = Vec::new();
        let mut i: usize = 0;
        proof {
            assert(d.skip(0) =~= d);
            assert(swapped.deep_view() =~= Seq::<Seq<char>>::empty());
            assert(Seq::<Seq<char>>::empty() + pair_swapped(d) =~= pair_swapped(d));
        }
        while i < n
            invariant
                i <= n,
                n == message.words@.len(),
                d == message@,
                pair_swapped(d) == swapped.deep_view() + pair_swapped(d.skip(i as int)),
            decreases n - i,
        {
            let ghost pre = swapped.deep_view();
            if i + 1 < n {
                swapped.push(message.words[i + 1].clone());
                swapped.push(message.words[i].clone());
                proof {
                    assert(d.skip(i as int)[0] == d[i as int]);
                    assert(d.skip(i as int)[1] == d[i + 1]);
                    assert(d.skip(i as int).skip(2) =~= d.skip(i + 2));
                    assert(swapped.deep_view() =~= pre.push(d[i + 1]).push(d[i as int]));
                    assert(pre + (seq![d[i + 1], d[i as int]] + pair_swapped(d.skip(i + 2)))
                        =~= pre.push(d[i + 1]).push(d[i as int]) + pair_swapped(d.skip(i + 2)));
                }
                i += 2;
            } else {
                swapped.push(message.words[i].clone());
                proof {
                    assert(d.skip(i as int) =~= seq![d[i as int]]);
                    assert(pair_swapped(d.skip(i as int)) == d.skip(i as int));
                    assert(swapped.deep_view() =~= pre.push(d[i as int]));
                    assert(pre + seq![d[i as int]] =~= pre.push(d[i as int]));
                    assert(d.skip(n as int) =~= Seq::<Seq<char>>::empty());
                    assert(pair_swapped(d.skip(n as int)) == d.skip(n as int));
                    assert(pre.push(d[i as int]) + Seq::<Seq<char>>::empty() =~= pre.push(d[i as int]));
                }
                i = n;
            }
        }
        proof {
            assert(d.skip(n as int) =~= Seq::<Seq<char>>::empty());
            assert(pair_swapped(d.skip(n as int)) == d.skip(n as int));
            assert(swapped.deep_view() + Seq::<Seq<char>>::empty() =~= swapped.deep_view());
        }
        Message { words: swapped }
    }
}

/// Replaces the fifth word of the message with the fifth word of the
/// previously heard message — "Wumpus" if no earlier message had one. A
/// message without a fifth word gets "Wumpus" appended instead, and is not
/// remembered.
pub struct TemporalDisplacer {
    last_word: String,
}

impl Default for TemporalDisplacer {
    /// A displacer that has heard nothing yet: it remembers "Wumpus".
    fn default() -> (d: TemporalDisplacer)
        ensures
            d.memory() == "Wumpus"@,
    {
        TemporalDisplacer { last_word: "Wumpus".to_owned() }
    }
}

impl TemporalDisplacer {
    /// The word this displacer would put in the next fifth place.
    pub closed spec fn memory(self) -> Seq<char> {
        self.last_word@
    }
}

impl Garbler for TemporalDisplacer {
    open spec fn garble_words(self, words: Seq<Seq<char>>) -> Seq<Seq<char>> {
        if words.len() >= 5 {
            words.update(4, self.memory())
        } else {
            words.push("Wumpus"@)
        }
    }

    open spec fn steps_to(self, words: Seq<Seq<char>>, next: Self) -> bool {
        next.memory() == if words.len() >= 5 {
            words[4]
        } else {
            self.memory()
        }
    }

    fn garble(&mut self, message: Message) -> (r: Message) {
        let ghost d = message@;
        let mut msg = message;
        if msg.words.len() >= 5 {
            let ghost pre_words = msg.words@;
            let mut w = msg.words.remove(4);
            core::mem::swap(&mut self.last_word, &mut w);
            msg.words.insert(4, w);
            proof {
                pre_words.remove_ensures(4);
                pre_words.remove(4).insert_ensures(4, w);
                assert(msg.words@ =~= pre_words.update(4, w));
                assert(msg.words.deep_view() =~= d.update(4, old(self).memory()));
            }
            msg
        } else {
            msg.words.push("Wumpus".to_owned());
            proof {
                assert(msg.words.deep_view() =~= d.push("Wumpus"@));
            }
            msg
        }
    }
}

/// One of the garblers, chosen at run time. A closed set of variants stands
/// in for dynamic dispatch, so that which garbler is on the line can be
/// decided while the game runs.
pub enum AnyGarbler {
    Listener(GoodListener),
    Third(ThirdRemover),
    Pairs(PairSwapper),
    Temporal(TemporalDisplacer),
}

/// An [`AnyGarbler`], seen abstractly: its kind and, for the displacer, the
/// word it remembers.
pub enum GarblerView {
    Listener,
    Third,
    Pairs,
    Temporal(Seq<char>),
}

impl View for AnyGarbler {
    type V = GarblerView;

    open spec fn view(&self) -> GarblerView {
        match self {
            AnyGarbler::Listener(_) => GarblerView::Listener,
            AnyGarbler::Third(_) => GarblerView::Third,
            AnyGarbler::Pairs(_) => GarblerView::Pairs,
            AnyGarbler::Temporal(t) => GarblerView::Temporal(t.memory()),
        }
    }
}

/// What one garbler, in the given state, makes of the given words: its next
/// state and the words it passes on.
pub open spec fn garbler_step(g: GarblerView, words: Seq<Seq<char>>) -> (GarblerView, Seq<Seq<char>>) {
    match g {
        GarblerView::Listener => (g, words),
        GarblerView::Third => (g, third_removed(words)),
        GarblerView::Pairs => (g, pair_swapped(words)),
        GarblerView::Temporal(mem) => {
            if words.len() >= 5 {
                (GarblerView::Temporal(words[4]), words.update(4, mem))
            } else {
                (GarblerView::Temporal(mem), words.push("Wumpus"@))
            }
        },
    }
}

impl Garbler for AnyGarbler {
    open spec fn garble_words(self, words: Seq<Seq<char>>) -> Seq<Seq<char>> {
        garbler_step(self@, words).1
    }

    open spec fn steps_to(self, words: Seq<Seq<char>>, next: Self) -> bool {
        next@ == garbler_step(self@, words).0
    }

    fn garble(&mut self, message: Message) -> (r: Message) {
        match self {
            AnyGarbler::Listener(g) => g.garble(message),
            AnyGarbler::Third(g) => g.garble(message),
            AnyGarbler::Pairs(g) => g.garble(message),
            AnyGarbler::Temporal(g) => g.garble(message),
        }
    }
}

/// The states of a sequence of garblers.
pub open spec fn garbler_views(gs: Seq<AnyGarbler>) -> Seq<GarblerView> {
    gs.map_values(|g: AnyGarbler| g@)
}

/// The message that comes out of a telephone line: each garbler, in order,
/// passes on what the previous one made of the message.
pub open spec fn garbles_fold(gs: Seq<GarblerView>, words: Seq<Seq<char>>) -> Seq<Seq<char>>
    decreases gs.len(),
{
    if gs.len() == 0 {
        words
    } else {
        garbles_fold(gs.drop_first(), garbler_step(gs[0], words).1)
    }
}

/// Play the message down the line: every garbler passes it on in turn.
pub fn perform_garbles(message: Message, garblers: Vec<AnyGarbler>) -> (r: Message)
    ensures
        r@ == garbles_fold(garbler_views(garblers@), message@),
{
    let ghost gs0 = garbler_views(garblers@);
    let ghost m0 = message@;
    let mut gs = garblers;
    let mut msg = message;
    loop
        invariant_except_break
            garbles_fold(gs0, m0) == garbles_fold(garbler_views(gs@), msg@),
        ensures
            msg@ == garbles_fold(gs0, m0),
        decreases gs@.len(),
    {
        if gs.len() == 0 {
            break;
        }
        let ghost pre_gs = garbler_views(gs@);
        let mut g = gs.remove(0);
        proof {
            assert(pre_gs[0] == g@);
            assert(garbler_views(gs@) =~= pre_gs.drop_first());
        }
        msg = g.garble(msg);
    }
    msg
}

/// Relies on rand::Rng::gen_range, which returns a value from the given
/// range and panics only when the range is empty.
#[verifier::external_body]
fn pick_garbler_index() -> (r: u32)
    ensures
        r < 4,
{
    rand::thread_rng().gen_range(0u32..4u32)
}

/// A randomly chosen garbler: one of the three memoryless ones.
pub fn get_random_garbler() -> (g: AnyGarbler)
    ensures
        g@ matches GarblerView::Listener || g@ matches GarblerView::Third || g@ matches GarblerView::Pairs,
{
    match pick_garbler_index() {
        0 => AnyGarbler::Listener(GoodListener),
        1 => AnyGarbler::Third(ThirdRemover),
        _ => AnyGarbler::Pairs(PairSwapper),
    }
}

} // verus!
