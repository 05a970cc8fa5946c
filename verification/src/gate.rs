//! Live emission gate: decides which arriving text may reach the live
//! display.
//!
//! A reply that opens, case-insensitively, with the directive marker
//! `ACTION:` is machine-directed and must never be shown. While the
//! comparison is undecided, incoming characters wait in a probe of at most
//! the marker's length; on the first mismatch the whole probe is released;
//! once the marker is confirmed everything is dropped. The transcript
//! accumulates before gating, so a suppressed reply is absent only from the
//! live display, never from the returned result.
use vstd::prelude::*;
use crate::text::{chars_of, append_str};

verus! {

/// The directive marker, uppercased.
pub open spec fn marker() -> Seq<char> {
    seq!['A', 'C', 'T', 'I', 'O', 'N', ':']
}

/// The marker character at position `i`.
fn marker_char(i: usize) -> (c: char)
    requires
        i < 7,
    ensures
        c == marker()[i as int],
{
    match i {
        0 => 'A',
        1 => 'C',
        2 => 'T',
        3 => 'I',
        4 => 'O',
        5 => 'N',
        _ => ':',
    }
}

/// ASCII uppercase of one character; everything but a lowercase ASCII letter
/// is left alone.
pub open spec fn ascii_upper(c: char) -> char {
    if c == 'a' { 'A' } else if c == 'b' { 'B' } else if c == 'c' { 'C' }
    else if c == 'd' { 'D' } else if c == 'e' { 'E' } else if c == 'f' { 'F' }
    else if c == 'g' { 'G' } else if c == 'h' { 'H' } else if c == 'i' { 'I' }
    else if c == 'j' { 'J' } else if c == 'k' { 'K' } else if c == 'l' { 'L' }
    else if c == 'm' { 'M' } else if c == 'n' { 'N' } else if c == 'o' { 'O' }
    else if c == 'p' { 'P' } else if c == 'q' { 'Q' } else if c == 'r' { 'R' }
    else if c == 's' { 'S' } else if c == 't' { 'T' } else if c == 'u' { 'U' }
    else if c == 'v' { 'V' } else if c == 'w' { 'W' } else if c == 'x' { 'X' }
    else if c == 'y' { 'Y' } else if c == 'z' { 'Z' } else { c }
}

/// Executable [`ascii_upper`].
pub fn ascii_upper_char(c: char) -> (r: char)
    ensures
        r == ascii_upper(c),
{
    match c {
        'a' => 'A', 'b' => 'B', 'c' => 'C', 'd' => 'D', 'e' => 'E', 'f' => 'F',
        'g' => 'G', 'h' => 'H', 'i' => 'I', 'j' => 'J', 'k' => 'K', 'l' => 'L',
        'm' => 'M', 'n' => 'N', 'o' => 'O', 'p' => 'P', 'q' => 'Q', 'r' => 'R',
        's' => 'S', 't' => 'T', 'u' => 'U', 'v' => 'V', 'w' => 'W', 'x' => 'X',
        'y' => 'Y', 'z' => 'Z', _ => c,
    }
}

/// How many characters of the text take part in the marker comparison: at
/// most the marker's seven.
pub open spec fn head_len(s: Seq<char>) -> int {
    vstd::math::min(7, s.len() as int)
}

/// The text could still become the marker: every compared character, case
/// folded, matches the marker literally. The empty text is a proper prefix
/// and stays possible; nothing else — in particular no whitespace — is
/// skipped before the comparison.
pub open spec fn marker_possible(s: Seq<char>) -> bool {
    forall|i: int| 0 <= i < head_len(s) ==> ascii_upper(#[trigger] s[i]) == marker()[i]
}

/// The text, case folded, starts with the whole marker.
pub open spec fn marker_full(s: Seq<char>) -> bool {
    s.len() >= 7 && marker_possible(s)
}

/// Whether the text is still a possible marker prefix, and whether the full
/// marker has been seen.
pub fn action_prefix_state(text: &str) -> (r: (bool, bool))
    ensures
        r.0 == marker_possible(text@),
        r.1 == marker_full(text@),
{
    let chars = chars_of(text);
    let n = chars.len();
    let cmp = if n < 7 { n } else { 7 };
    let mut i: usize = 0;
    while i < cmp
        invariant
            n == chars@.len(),
            chars@ == text@,
            cmp == head_len(text@),
            cmp <= n,
            i <= cmp,
            forall|k: int| 0 <= k < i ==> ascii_upper(#[trigger] text@[k]) == marker()[k],
        decreases cmp - i,
    {
        if ascii_upper_char(chars[i]) != marker_char(i) {
            proof {
                assert(!marker_possible(text@));
            }
            return (false, false);
        }
        i = i + 1;
    }
    proof {
        assert(marker_possible(text@));
    }
    (true, n >= 7)
}

/// A text whose head has deviated from the marker can never return to it,
/// and can never become the full marker.
pub proof fn lemma_deviation_is_final(s: Seq<char>, x: Seq<char>)
    requires
        !marker_possible(s),
    ensures
        !marker_possible(s + x),
        !marker_full(s + x),
{
    let i = choose|i: int| 0 <= i < head_len(s) && ascii_upper(#[trigger] s[i]) != marker()[i];
    assert((s + x)[i] == s[i]);
    assert(0 <= i < head_len(s + x));
}

/// Once the full marker has been seen, any extension still holds it.
pub proof fn lemma_full_marker_is_final(s: Seq<char>, x: Seq<char>)
    requires
        marker_full(s),
    ensures
        marker_full(s + x),
{
    assert(forall|i: int| 0 <= i < head_len(s + x) ==> ascii_upper(#[trigger] (s + x)[i])
        == marker()[i]) by {
        assert(forall|i: int| 0 <= i < 7 ==> (s + x)[i] == s[i]);
    }
}

/// The three dispositions for incoming characters.
pub enum LiveEmitMode {
    /// Still comparing against the marker.
    Unknown,
    /// The text deviated from the marker: forward everything.
    Emit,
    /// The marker was confirmed: drop everything.
    Suppress,
}

/// The abstract state of a [`LiveEmitGate`].
pub struct GateView {
    pub mode: LiveEmitMode,
    pub probe: Seq<char>,
}

/// The state a fresh gate starts in.
pub open spec fn gate_init() -> GateView {
    GateView { mode: LiveEmitMode::Unknown, probe: Seq::empty() }
}

/// One push: the state afterwards and the text emitted to the live display.
pub open spec fn gate_push_spec(m: GateView, text: Seq<char>) -> (GateView, Seq<char>) {
    if text.len() == 0 {
        (m, Seq::empty())
    } else {
        match m.mode {
            LiveEmitMode::Emit => (m, text),
            LiveEmitMode::Suppress => (m, Seq::empty()),
            LiveEmitMode::Unknown => {
                let probe2 = m.probe + text;
                if marker_full(probe2) {
                    (GateView { mode: LiveEmitMode::Suppress, probe: Seq::empty() }, Seq::empty())
                } else if marker_possible(probe2) {
                    (GateView { mode: LiveEmitMode::Unknown, probe: probe2 }, Seq::empty())
                } else {
                    (GateView { mode: LiveEmitMode::Emit, probe: Seq::empty() }, probe2)
                }
            },
        }
    }
}

/// Finalize at stream end: the state afterwards and the text emitted. An
/// ambiguous probe that never became the full marker is flushed as prose.
pub open spec fn gate_finalize_spec(m: GateView) -> (GateView, Seq<char>) {
    if m.probe.len() == 0 {
        (m, Seq::empty())
    } else {
        let flushed = GateView { mode: m.mode, probe: Seq::empty() };
        match m.mode {
            LiveEmitMode::Suppress => (flushed, Seq::empty()),
            _ => {
                if marker_full(m.probe) {
                    (flushed, Seq::empty())
                } else {
                    (flushed, m.probe)
                }
            },
        }
    }
}

/// Classifies text for the live display; see the module description.
pub struct LiveEmitGate {
    mode: LiveEmitMode,
    probe: String,
}

impl View for LiveEmitGate {
    type V = GateView;

    closed spec fn view(&self) -> GateView {
        GateView { mode: self.mode, probe: self.probe@ }
    }
}

impl LiveEmitGate {
    /// A fresh gate, still comparing against the marker.
    pub fn new() -> (g: Self)
        ensures
            g@ == gate_init(),
    {
        let g = LiveEmitGate { mode: LiveEmitMode::Unknown, probe: String::new() };
        proof {
            assert(g@.probe =~= gate_init().probe);
        }
        g
    }

    /// Feed arriving text; returns what may be shown live right now.
    pub fn push(&mut self, text: &str) -> (emitted: String)
        ensures
            final(self)@ == gate_push_spec(old(self)@, text@).0,
            emitted@ == gate_push_spec(old(self)@, text@).1,
    {
        if text.is_empty() {
            return String::new();
        }
        match self.mode {
            LiveEmitMode::Emit => String::from_str(text),
            LiveEmitMode::Suppress => String::new(),
            LiveEmitMode::Unknown => {
                append_str(&mut self.probe, text);
                let (possible, full) = action_prefix_state(self.probe.as_str());
                if full {
                    self.mode = LiveEmitMode::Suppress;
                    self.probe = String::new();
                    String::new()
                } else if possible {
                    String::new()
                } else {
                    self.mode = LiveEmitMode::Emit;
                    let out = self.probe.clone();
                    self.probe = String::new();
                    out
                }
            },
        }
    }

    /// Run once at stream end; returns any buffered text that turned out to
    /// be ordinary prose.
    pub fn finalize(&mut self) -> (emitted: String)
        ensures
            final(self)@ == gate_finalize_spec(old(self)@).0,
            emitted@ == gate_finalize_spec(old(self)@).1,
    {
        if self.probe.as_str().is_empty() {
            return String::new();
        }
        let (_, full) = action_prefix_state(self.probe.as_str());
        let suppressing = match self.mode {
            LiveEmitMode::Suppress => true,
            _ => false,
        };
        let out = if !suppressing && !full {
            self.probe.clone()
        } else {
            String::new()
        };
        self.probe = String::new();
        out
    }
}


/// Feeding the pieces one after another: the resulting state and the
/// concatenation of everything emitted.
pub open spec fn gate_run_spec(m: GateView, pieces: Seq<Seq<char>>) -> (GateView, Seq<char>)
    decreases pieces.len(),
{
    if pieces.len() == 0 {
        (m, Seq::empty())
    } else {
        let step = gate_push_spec(m, pieces[0]);
        let rest = gate_run_spec(step.0, pieces.skip(1));
        (rest.0, step.1 + rest.1)
    }
}

/// The concatenation of a sequence of pieces.
pub open spec fn concat_pieces(pieces: Seq<Seq<char>>) -> Seq<char>
    decreases pieces.len(),
{
    if pieces.len() == 0 {
        Seq::empty()
    } else {
        pieces[0] + concat_pieces(pieces.skip(1))
    }
}

/// What may be shown of a whole reply: nothing when it carries the
/// directive marker, all of it otherwise.
pub open spec fn gate_output(s: Seq<char>) -> Seq<char> {
    if marker_full(s) {
        Seq::empty()
    } else {
        s
    }
}

/// The invariant tying a gate state to the text consumed and emitted so far.
pub open spec fn gate_inv(m: GateView, consumed: Seq<char>, emitted: Seq<char>) -> bool {
    match m.mode {
        LiveEmitMode::Unknown => emitted.len() == 0 && m.probe == consumed && marker_possible(
            consumed,
        ) && !marker_full(consumed),
        LiveEmitMode::Emit => emitted == consumed && m.probe.len() == 0 && !marker_possible(
            consumed,
        ),
        LiveEmitMode::Suppress => emitted.len() == 0 && m.probe.len() == 0 && marker_full(
            consumed,
        ),
    }
}

/// One push preserves the invariant.
proof fn lemma_gate_push_inv(m: GateView, consumed: Seq<char>, emitted: Seq<char>, text: Seq<char>)
    requires
        gate_inv(m, consumed, emitted),
    ensures
        gate_inv(
            gate_push_spec(m, text).0,
            consumed + text,
            emitted + gate_push_spec(m, text).1,
        ),
{
    let step = gate_push_spec(m, text);
    if text.len() == 0 {
        assert(consumed + text =~= consumed);
        assert(emitted + step.1 =~= emitted);
    } else {
        match m.mode {
            LiveEmitMode::Unknown => {
                let probe2 = m.probe + text;
                assert(probe2 == consumed + text);
                if marker_full(probe2) {
                    assert(emitted + step.1 =~= emitted);
                } else if marker_possible(probe2) {
                    assert(emitted + step.1 =~= emitted);
                } else {
                    assert(emitted + probe2 =~= probe2);
                }
            },
            LiveEmitMode::Emit => {
                lemma_deviation_is_final(consumed, text);
            },
            LiveEmitMode::Suppress => {
                lemma_full_marker_is_final(consumed, text);
                assert(emitted + step.1 =~= emitted);
            },
        }
    }
}

/// A whole run preserves the invariant.
proof fn lemma_gate_run_inv(
    m: GateView,
    consumed: Seq<char>,
    emitted: Seq<char>,
    pieces: Seq<Seq<char>>,
)
    requires
        gate_inv(m, consumed, emitted),
    ensures
        gate_inv(
            gate_run_spec(m, pieces).0,
            consumed + concat_pieces(pieces),
            emitted + gate_run_spec(m, pieces).1,
        ),
    decreases pieces.len(),
{
    if pieces.len() == 0 {
        assert(consumed + concat_pieces(pieces) =~= consumed);
        assert(emitted + gate_run_spec(m, pieces).1 =~= emitted);
    } else {
        let step = gate_push_spec(m, pieces[0]);
        lemma_gate_push_inv(m, consumed, emitted, pieces[0]);
        lemma_gate_run_inv(step.0, consumed + pieces[0], emitted + step.1, pieces.skip(1));
        assert(consumed + pieces[0] + concat_pieces(pieces.skip(1)) =~= consumed + concat_pieces(
            pieces,
        ));
        assert(emitted + step.1 + gate_run_spec(step.0, pieces.skip(1)).1 =~= emitted
            + gate_run_spec(m, pieces).1);
    }
}

/// Split points do not matter: however a reply is cut into pieces, the
/// concatenation of everything emitted, including what finalize releases,
/// equals [`gate_output`] of the whole reply: nothing of a marker-carrying
/// reply, and all of one without the marker.
pub proof fn lemma_gate_piecewise(pieces: Seq<Seq<char>>)
    ensures
        ({
            let run = gate_run_spec(gate_init(), pieces);
            let fin = gate_finalize_spec(run.0);
            run.1 + fin.1 == gate_output(concat_pieces(pieces))
        }),
{
    let s = concat_pieces(pieces);
    let run = gate_run_spec(gate_init(), pieces);
    let fin = gate_finalize_spec(run.0);
    assert(gate_inv(gate_init(), Seq::empty(), Seq::empty()));
    lemma_gate_run_inv(gate_init(), Seq::empty(), Seq::empty(), pieces);
    assert(Seq::empty() + s =~= s);
    assert(Seq::empty() + run.1 =~= run.1);
    assert(gate_inv(run.0, s, run.1));
    match run.0.mode {
        LiveEmitMode::Unknown => {
            if run.0.probe.len() == 0 {
                assert(run.1 + fin.1 =~= s);
            } else {
                assert(run.1 + fin.1 =~= s);
            }
        },
        LiveEmitMode::Emit => {
            assert(run.1 + fin.1 =~= run.1);
        },
        LiveEmitMode::Suppress => {
            assert(run.1 + fin.1 =~= Seq::<char>::empty());
        },
    }
}

/// Feeding the exact marker piecewise emits none of it.
pub proof fn lemma_gate_suppresses_marker(pieces: Seq<Seq<char>>)
    requires
        marker_full(concat_pieces(pieces)),
    ensures
        ({
            let run = gate_run_spec(gate_init(), pieces);
            let fin = gate_finalize_spec(run.0);
            (run.1 + fin.1).len() == 0
        }),
{
    lemma_gate_piecewise(pieces);
}

/// A reply without the marker passes through verbatim, however it is split.
pub proof fn lemma_gate_passes_prose(pieces: Seq<Seq<char>>)
    requires
        !marker_full(concat_pieces(pieces)),
    ensures
        ({
            let run = gate_run_spec(gate_init(), pieces);
            let fin = gate_finalize_spec(run.0);
            run.1 + fin.1 == concat_pieces(pieces)
        }),
{
    lemma_gate_piecewise(pieces);
}

/// The probe never reaches the marker's seven characters: a head that
/// matched all of the marker would switch to suppressing, and a mismatching
/// head would be released. A fresh gate starts empty, every push keeps the
/// bound, and finalize clears the probe.
pub proof fn lemma_gate_probe_bounded(m: GateView, text: Seq<char>)
    requires
        m.probe.len() < 7,
    ensures
        gate_push_spec(m, text).0.probe.len() < 7,
        gate_finalize_spec(m).0.probe.len() == 0,
        gate_init().probe.len() == 0,
{
}

}
