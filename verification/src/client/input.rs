//! Keyboard input on its way to the server.

use vstd::prelude::*;

use crate::protocol::ClientMsg;
use crate::session::{DEFAULT_COLS, DEFAULT_ROWS};

verus! {

/// Detach key: Ctrl+\ (0x1c).
pub const DETACH_KEY: u8 = 0x1c;

/// Last byte of a focus-in event: ESC [ I
pub const FOCUS_IN: u8 = 0x49;

/// Last byte of a focus-out event: ESC [ O
pub const FOCUS_OUT: u8 = 0x4f;

/// What is left of input without its focus events.
pub struct Filtered {
    /// The input to pass on.
    pub passed: Seq<u8>,
    /// How often the terminal got the focus.
    pub refreshes: nat,
    /// The start of what may be a focus event, to be looked at again with the
    /// input that follows.
    pub carry: Seq<u8>,
}

/// Input with one more byte in front that is passed on.
pub open spec fn with_first(b: u8, rest: Filtered) -> Filtered {
    Filtered { passed: seq![b] + rest.passed, ..rest }
}

/// Input without its focus events: ESC [ I counts as a refresh, ESC [ O is dropped,
/// and everything else is passed on.
pub open spec fn filtered(raw: Seq<u8>) -> Filtered
    decreases raw.len(),
{
    if raw.len() == 0 {
        Filtered { passed: seq![], refreshes: 0, carry: seq![] }
    } else if raw[0] == 0x1b && (raw.len() == 1 || (raw[1] == 0x5b && raw.len() == 2)) {
        Filtered { passed: seq![], refreshes: 0, carry: raw }
    } else if raw[0] == 0x1b && raw[1] == 0x5b && raw[2] == FOCUS_IN {
        let rest = filtered(raw.skip(3));
        Filtered { refreshes: rest.refreshes + 1, ..rest }
    } else if raw[0] == 0x1b && raw[1] == 0x5b && raw[2] == FOCUS_OUT {
        filtered(raw.skip(3))
    } else {
        with_first(raw[0], filtered(raw.skip(1)))
    }
}

/// The position of the detach key, or the length of the input without one.
pub open spec fn detach_at(raw: Seq<u8>) -> nat
    decreases raw.len(),
{
    if raw.len() == 0 || raw[0] == DETACH_KEY {
        0
    } else {
        1 + detach_at(raw.skip(1))
    }
}

/// What one read of keyboard input leads to.
#[derive(Debug)]
pub struct StdinStep {
    /// How many requests for a full redraw to send, before the input.
    pub refreshes: usize,
    /// The input to send; none is sent where it is empty.
    pub input: Vec<u8>,
    /// Whether to detach, after the input.
    pub detach: bool,
}

/// Finds the detach key and focus events in keyboard input.
pub struct StdinFilter {
    /// Bytes of an earlier read that may start a focus event.
    pub carry: Vec<u8>,
}

proof fn lemma_detach_bound(raw: Seq<u8>)
    ensures
        detach_at(raw) <= raw.len(),
    decreases raw.len(),
{
    if raw.len() > 0 && raw[0] != DETACH_KEY {
        lemma_detach_bound(raw.skip(1));
    }
}

/// Find the detach key.
fn find_detach(raw: &Vec<u8>) -> (res: usize)
    ensures
        res == detach_at(raw@),
        res <= raw@.len(),
{
    let mut i: usize = 0;
    assert(raw@.skip(0) =~= raw@);
    while i < raw.len() && raw[i] != DETACH_KEY
        invariant
            i <= raw@.len(),
            detach_at(raw@) == i + detach_at(raw@.skip(i as int)),
        decreases raw@.len() - i,
    {
        proof {
            assert(raw@.skip(i as int).skip(1) =~= raw@.skip(i + 1));
        }
        i += 1;
    }
    i
}

impl StdinFilter {
    /// A filter at the start of input.
    pub fn new() -> (res: Self)
        ensures
            res.carry@ == Seq::<u8>::empty(),
    {
        StdinFilter { carry: Vec::new() }
    }

    /// Take in what one read of keyboard input gave.
    pub fn feed(&mut self, read: &[u8]) -> (res: StdinStep)
        ensures
            ({
                let raw = old(self).carry@ + read@;
                let at = detach_at(raw);
                if at < raw.len() {
                    &&& res.detach
                    &&& res.refreshes == 0
                    &&& res.input@ == raw.take(at as int)
                    &&& final(self).carry@ == Seq::<u8>::empty()
                } else {
                    &&& !res.detach
                    &&& res.refreshes == filtered(raw).refreshes
                    &&& res.input@ == filtered(raw).passed
                    &&& final(self).carry@ == filtered(raw).carry
                }
            }),
    {
        let mut raw: Vec<u8> = Vec::new();
        std::mem::swap(&mut raw, &mut self.carry);
        raw.extend_from_slice(read);
        let ghost all = old(self).carry@ + read@;
        assert(raw@ =~= all);
        assert(self.carry@ =~= seq![]);
        let at: usize = find_detach(&raw);
        if at < raw.len() {
            raw.truncate(at);
            assert(raw@ =~= all.take(at as int));
            return StdinStep { refreshes: 0, input: raw, detach: true };
        }
        let mut input: Vec<u8> = Vec::new();
        let mut refreshes: usize = 0;
        let mut i: usize = 0;
        let ghost whole = filtered(raw@);
        assert(raw@.skip(0) =~= raw@);
        assert(seq![] + whole.passed =~= whole.passed);
        while i < raw.len()
            invariant_except_break
                i <= raw@.len(),
                self.carry@ == Seq::<u8>::empty(),
                refreshes <= i,
                whole.passed == input@ + filtered(raw@.skip(i as int)).passed,
                whole.refreshes == refreshes + filtered(raw@.skip(i as int)).refreshes,
                whole.carry == filtered(raw@.skip(i as int)).carry,
            ensures
                whole.passed == input@,
                whole.refreshes == refreshes,
                whole.carry == self.carry@,
            decreases raw@.len() - i,
        {
            let ghost rest = raw@.skip(i as int);
            let left: usize = raw.len() - i;
            assert(input@ + Seq::<u8>::empty() =~= input@);
            if raw[i] == 0x1b && (left == 1 || (raw[i + 1] == 0x5b && left == 2)) {
                // The start of what may be a focus event waits for more input
                self.carry.extend_from_slice(&raw[i..raw.len()]);
                assert(self.carry@ =~= rest);
                break;
            }
            if raw[i] == 0x1b && raw[i + 1] == 0x5b && raw[i + 2] == FOCUS_IN {
                refreshes += 1;
                i += 3;
                assert(raw@.skip(i as int) =~= rest.skip(3));
            } else if raw[i] == 0x1b && raw[i + 1] == 0x5b && raw[i + 2] == FOCUS_OUT {
                i += 3;
                assert(raw@.skip(i as int) =~= rest.skip(3));
            } else {
                let ghost before = input@;
                input.push(raw[i]);
                i += 1;
                assert(raw@.skip(i as int) =~= rest.skip(1));
                assert(before + (seq![rest[0]] + filtered(rest.skip(1)).passed) =~= input@
                    + filtered(rest.skip(1)).passed);
            }
            assert(i == raw@.len() ==> raw@.skip(i as int) =~= seq![]);
            assert(i == raw@.len() ==> input@ + filtered(raw@.skip(i as int)).passed =~= input@);
        }
        StdinStep { refreshes, input, detach: false }
    }

    /// The input to send when there is no more: what was carried is no focus event.
    pub fn finish(self) -> (res: Vec<u8>)
        ensures
            res@ == self.carry@,
    {
        self.carry
    }
}

/// It does not matter how input is cut into reads: what is carried over from `a`,
/// followed by `b`, gives what is left of `a + b`.
pub proof fn law_filter_in_parts(a: Seq<u8>, b: Seq<u8>)
    ensures
        ({
            let first = filtered(a);
            let second = filtered(first.carry + b);
            let whole = filtered(a + b);
            &&& whole.passed == first.passed + second.passed
            &&& whole.refreshes == first.refreshes + second.refreshes
            &&& whole.carry == second.carry
        }),
    decreases a.len(),
{
    let first = filtered(a);
    if a.len() == 0 {
        assert(a + b =~= b);
        assert(first.carry + b =~= b);
        assert(first.passed + filtered(b).passed =~= filtered(b).passed);
    } else if a[0] == 0x1b && (a.len() == 1 || (a[1] == 0x5b && a.len() == 2)) {
        assert(first.carry + b =~= a + b);
        assert(first.passed + filtered(a + b).passed =~= filtered(a + b).passed);
    } else if a[0] == 0x1b && a[1] == 0x5b && (a[2] == FOCUS_IN || a[2] == FOCUS_OUT) {
        law_filter_in_parts(a.skip(3), b);
        assert((a + b).skip(3) =~= a.skip(3) + b);
    } else {
        law_filter_in_parts(a.skip(1), b);
        assert((a + b).skip(1) =~= a.skip(1) + b);
        let rest = filtered(a.skip(1));
        let second = filtered(first.carry + b);
        assert((a + b)[0] == a[0]);
        if a.len() >= 2 {
            assert((a + b)[1] == a[1]);
        }
        if a.len() >= 3 {
            assert((a + b)[2] == a[2]);
        }
        assert(filtered(a + b) == with_first(a[0], filtered(a.skip(1) + b)));
        assert(seq![a[0]] + (rest.passed + second.passed) =~= (seq![a[0]] + rest.passed)
            + second.passed);
    }
}

/// Input without an escape character is passed on as it is.
pub proof fn law_plain_input_is_passed(raw: Seq<u8>)
    requires
        forall|i: int| 0 <= i < raw.len() ==> #[trigger] raw[i] != 0x1b,
    ensures
        filtered(raw).passed == raw,
        filtered(raw).refreshes == 0,
        filtered(raw).carry == Seq::<u8>::empty(),
    decreases raw.len(),
{
    if raw.len() > 0 {
        let rest = raw.skip(1);
        assert(raw[0] != 0x1b);
        assert forall|i: int| 0 <= i < rest.len() implies #[trigger] rest[i] != 0x1b by {
            assert(rest[i] == raw[i + 1]);
        }
        law_plain_input_is_passed(rest);
        assert(seq![raw[0]] + rest =~= raw);
    } else {
        assert(filtered(raw).passed =~= raw);
    }
}

/// Whether a focus event stands at `i`: ESC [ I or ESC [ O.
pub open spec fn focus_event_at(raw: Seq<u8>, i: int) -> bool {
    &&& i + 2 < raw.len()
    &&& raw[i] == 0x1b
    &&& raw[i + 1] == 0x5b
    &&& raw[i + 2] == 0x49 || raw[i + 2] == 0x4f
}

/// Input without focus events is passed on unchanged, whatever else is in it: arrow keys
/// and other escape sequences too. Only an ESC or ESC [ at its end waits for more.
pub proof fn law_input_without_events_is_passed(raw: Seq<u8>)
    requires
        forall|i: int| 0 <= i < raw.len() ==> !#[trigger] focus_event_at(raw, i),
    ensures
        ({
            let f = filtered(raw);
            let n = raw.len();
            &&& f.passed + f.carry == raw
            &&& f.refreshes == 0
            &&& n >= 1 && raw[n - 1] == 0x1b ==> f.carry == seq![0x1bu8]
            &&& n >= 2 && raw[n - 2] == 0x1b && raw[n - 1] == 0x5b ==> f.carry == seq![
                0x1bu8,
                0x5b,
            ]
            &&& (n == 0 || raw[n - 1] != 0x1b) && (n < 2 || raw[n - 2] != 0x1b || raw[n - 1]
                != 0x5b) ==> f.carry == Seq::<u8>::empty()
        }),
    decreases raw.len(),
{
    let f = filtered(raw);
    if raw.len() == 0 {
        assert(f.passed + f.carry =~= raw);
    } else if raw[0] == 0x1b && (raw.len() == 1 || (raw[1] == 0x5b && raw.len() == 2)) {
        assert(f.passed + f.carry =~= raw);
        assert(raw.len() == 1 ==> raw =~= seq![0x1bu8]);
        assert(raw.len() == 2 ==> raw =~= seq![0x1bu8, 0x5b]);
    } else {
        let rest = raw.skip(1);
        assert(!focus_event_at(raw, 0));
        assert forall|i: int| 0 <= i < rest.len() implies !#[trigger] focus_event_at(rest, i) by {
            assert(!focus_event_at(raw, i + 1));
        }
        law_input_without_events_is_passed(rest);
        assert(f == with_first(raw[0], filtered(rest)));
        assert(f.passed + f.carry =~= seq![raw[0]] + (filtered(rest).passed + filtered(rest).carry));
        assert(seq![raw[0]] + rest =~= raw);
        if raw.len() >= 2 {
            assert(rest[rest.len() - 1] == raw[raw.len() - 1]);
        }
        if raw.len() >= 3 {
            assert(rest[rest.len() - 2] == raw[raw.len() - 2]);
        }
    }
}

proof fn lemma_carry(raw: Seq<u8>)
    ensures
        ({
            let carry = filtered(raw).carry;
            carry.len() == 0 || carry == seq![0x1bu8] || carry == seq![0x1bu8, 0x5b]
        }),
    decreases raw.len(),
{
    if raw.len() == 0 {
    } else if raw[0] == 0x1b && (raw.len() == 1 || (raw[1] == 0x5b && raw.len() == 2)) {
        assert(raw.len() == 1 ==> raw =~= seq![0x1bu8]);
        assert(raw.len() == 2 ==> raw =~= seq![0x1bu8, 0x5b]);
    } else {
        lemma_carry(raw.skip(1));
        if raw.len() >= 3 {
            lemma_carry(raw.skip(3));
        }
    }
}

proof fn lemma_first_passes(b: u8, rest: Seq<u8>)
    requires
        rest.len() > 0,
        b == 0x1b ==> rest[0] != 0x5b || (rest.len() > 1 && rest[1] != 0x49 && rest[1] != 0x4f),
    ensures
        filtered(seq![b] + rest) == with_first(b, filtered(rest)),
{
    let raw = seq![b] + rest;
    assert(raw.skip(1) =~= rest);
}

proof fn lemma_event_first(last: u8, b: Seq<u8>)
    requires
        last == 0x49 || last == 0x4f,
    ensures
        filtered(seq![0x1bu8, 0x5b, last] + b).passed == filtered(b).passed,
        filtered(seq![0x1bu8, 0x5b, last] + b).carry == filtered(b).carry,
        filtered(seq![0x1bu8, 0x5b, last] + b).refreshes == filtered(b).refreshes + (if last
            == 0x49 {
            1nat
        } else {
            0
        }),
{
    let raw = seq![0x1bu8, 0x5b, last] + b;
    assert(raw.skip(3) =~= b);
    assert(raw[0] == 0x1b && raw[1] == 0x5b && raw[2] == last);
}

/// A focus event is taken out wherever it stands: what is before it and what is behind it
/// is filtered as if the event were not there, and what was waiting before it is passed
/// on. ESC [ I is one refresh, ESC [ O is none.
pub proof fn law_focus_event_is_taken_out(a: Seq<u8>, last: u8, b: Seq<u8>)
    requires
        last == 0x49 || last == 0x4f,
    ensures
        ({
            let whole = filtered(a + seq![0x1bu8, 0x5b, last] + b);
            &&& whole.passed == filtered(a).passed + filtered(a).carry + filtered(b).passed
            &&& last == 0x49 ==> whole.refreshes == filtered(a).refreshes + 1 + filtered(
                b,
            ).refreshes
            &&& last == 0x4f ==> whole.refreshes == filtered(a).refreshes + filtered(b).refreshes
            &&& whole.carry == filtered(b).carry
        }),
{
    let event = seq![0x1bu8, 0x5b, last];
    let first = filtered(a);
    let c = first.carry;
    law_filter_in_parts(a, event + b);
    lemma_carry(a);
    lemma_event_first(last, b);
    assert(a + event + b =~= a + (event + b));
    let tail = filtered(event + b);
    assert(filtered(c + (event + b)).passed == c + tail.passed && filtered(
        c + (event + b),
    ).refreshes == tail.refreshes && filtered(c + (event + b)).carry == tail.carry) by {
        if c.len() == 0 {
            assert(c + (event + b) =~= event + b);
            assert(c + tail.passed =~= tail.passed);
        } else if c == seq![0x1bu8] {
            lemma_first_passes(0x1b, event + b);
        } else {
            assert(c + (event + b) =~= seq![0x1bu8] + (seq![0x5bu8] + (event + b)));
            lemma_first_passes(0x1b, seq![0x5bu8] + (event + b));
            lemma_first_passes(0x5b, event + b);
            assert(seq![0x1bu8] + (seq![0x5bu8] + tail.passed) =~= c + tail.passed);
        }
    }
    assert(first.passed + (c + tail.passed) =~= first.passed + c + tail.passed);
}

/// The detach key is Ctrl+\: input is searched for its first occurrence.
pub proof fn law_detach_key_is_found(a: Seq<u8>, b: Seq<u8>)
    requires
        forall|i: int| 0 <= i < a.len() ==> #[trigger] a[i] != 0x1c,
    ensures
        detach_at(a + seq![0x1cu8] + b) == a.len(),
        detach_at(a) == a.len(),
    decreases a.len(),
{
    let raw = a + seq![0x1cu8] + b;
    if a.len() > 0 {
        let rest = a.skip(1);
        assert forall|i: int| 0 <= i < rest.len() implies #[trigger] rest[i] != 0x1c by {
            assert(rest[i] == a[i + 1]);
        }
        law_detach_key_is_found(rest, b);
        assert(raw.skip(1) =~= rest + seq![0x1cu8] + b);
        assert(a[0] != 0x1c && raw[0] == a[0]);
    } else {
        assert(raw[0] == 0x1c);
    }
}

/// The terminal size to tell the server; a default where it is not known.
pub fn terminal_size_or_default(size: Option<(u16, u16)>) -> (res: (u16, u16))
    ensures
        res == (match size {
            Some(s) => s,
            None => (DEFAULT_COLS, DEFAULT_ROWS),
        }),
{
    match size {
        Some(s) => s,
        None => (DEFAULT_COLS, DEFAULT_ROWS),
    }
}

/// What the server is told when the terminal changed its size: the size, and that
/// the screen is to be redrawn, since the terminal may have lost what it showed.
pub fn resize_messages(cols: u16, rows: u16) -> (res: Vec<ClientMsg>)
    ensures
        res@ == seq![ClientMsg::Resize { cols, rows }, ClientMsg::RefreshScreen],
{
    let mut res: Vec<ClientMsg> = Vec::new();
    res.push(ClientMsg::Resize { cols, rows });
    res.push(ClientMsg::RefreshScreen);
    assert(res@ =~= seq![ClientMsg::Resize { cols, rows }, ClientMsg::RefreshScreen]);
    res
}

} // verus!
