//! The trace context of a span: the identifiers that tie it to its trace
//! and to its parent, and the text in which they are propagated.

use vstd::prelude::*;

verus! {

/// Identifies a span within a trace.
///
/// A span that refers to no other span is the root of a trace of its own,
/// named after the span: its `trace_id` is its `span_id` and its
/// `parent_id` is zero.
#[derive(Clone, Copy, Debug, PartialEq, Eq, Structural)]
pub struct TraceContext {
    pub trace_id: u64,
    pub span_id: u64,
    pub parent_id: u64,
    pub sampled: bool,
}

/// Sixteen to the power `n`.
pub open spec fn pow16(n: nat) -> nat
    decreases n,
{
    if n == 0 {
        1
    } else {
        16 * pow16((n - 1) as nat)
    }
}

/// The lower-case hexadecimal digit of a value below sixteen.
pub open spec fn hex_digit(d: int) -> char {
    seq!['0', '1', '2', '3', '4', '5', '6', '7', '8', '9', 'a', 'b', 'c', 'd', 'e', 'f'][d]
}

/// An identifier in sixteen hexadecimal digits, most significant first,
/// padded with zeros.
pub open spec fn hex_id(value: u64) -> Seq<char> {
    Seq::new(16, |i: int| hex_digit((value as int / pow16((15 - i) as nat) as int) % 16))
}

/// The sampling flags as one hexadecimal digit.
pub open spec fn flags_text(sampled: bool) -> Seq<char> {
    if sampled {
        seq!['1']
    } else {
        seq!['0']
    }
}

impl TraceContext {
    /// The context of a span that starts a trace of its own.
    pub open spec fn root_of(span_id: u64) -> TraceContext {
        TraceContext { trace_id: span_id, span_id, parent_id: 0, sampled: true }
    }

    /// The context of a span that joins the trace of `reference`.
    pub open spec fn joined_to(span_id: u64, reference: TraceContext) -> TraceContext {
        TraceContext {
            trace_id: reference.trace_id,
            span_id,
            parent_id: reference.span_id,
            sampled: true,
        }
    }

    /// The context of a new span, given the contexts of the open spans it
    /// names as parent and as predecessor. The parent decides where there is
    /// one, else the predecessor, else the span roots a new trace.
    pub open spec fn derived(
        span_id: u64,
        child_of: Option<TraceContext>,
        follows_from: Option<TraceContext>,
    ) -> TraceContext {
        match child_of {
            Some(parent) => Self::joined_to(span_id, parent),
            None => match follows_from {
                Some(predecessor) => Self::joined_to(span_id, predecessor),
                None => Self::root_of(span_id),
            },
        }
    }

    /// Whether this context is the root of its trace.
    pub open spec fn is_root(self) -> bool {
        self.trace_id == self.span_id && self.parent_id == 0
    }

    /// The propagated form: trace, span and parent identifier and the
    /// sampling flags, in hexadecimal, joined by colons.
    pub open spec fn text(self) -> Seq<char> {
        hex_id(self.trace_id) + seq![':'] + hex_id(self.span_id) + seq![':'] + hex_id(
            self.parent_id,
        ) + seq![':'] + flags_text(self.sampled)
    }

    /// Derives the context of the span `span_id` from the contexts of the
    /// open spans that it refers to: `child_of` for its parent and
    /// `follows_from` for its predecessor, each `None` where the span names
    /// none or names one that is not open.
    pub fn derive(
        span_id: u64,
        child_of: Option<TraceContext>,
        follows_from: Option<TraceContext>,
    ) -> (r: TraceContext)
        ensures
            r == Self::derived(span_id, child_of, follows_from),
            r.span_id == span_id,
            r.sampled,
    {
        let reference: Option<TraceContext> = match child_of {
            Some(parent) => Some(parent),
            None => follows_from,
        };
        match reference {
            Some(linked) => TraceContext {
                trace_id: linked.trace_id,
                span_id,
                parent_id: linked.span_id,
                sampled: true,
            },
            None => TraceContext { trace_id: span_id, span_id, parent_id: 0, sampled: true },
        }
    }

    /// Writes the context out in its propagated form.
    pub fn render(&self) -> (r: String)
        ensures
            r@ == self.text(),
    {
        proof {
            reveal_strlit(":");
            reveal_strlit("0");
            reveal_strlit("1");
        }
        let mut out = String::new();
        push_hex_id(&mut out, self.trace_id);
        out.append(":");
        push_hex_id(&mut out, self.span_id);
        out.append(":");
        push_hex_id(&mut out, self.parent_id);
        out.append(":");
        if self.sampled {
            out.append("1");
        } else {
            out.append("0");
        }
        assert(":"@ =~= seq![':']);
        assert("1"@ =~= seq!['1']);
        assert("0"@ =~= seq!['0']);
        assert(out@ =~= self.text());
        out
    }
}

/// Sixteen to any power is positive, and one power is sixteen times the one
/// below it.
proof fn lemma_pow16_step(n: nat)
    ensures
        pow16(n) > 0,
        pow16(n + 1) == 16 * pow16(n),
        pow16(n + 1) / 16 == pow16(n),
    decreases n,
{
    if n > 0 {
        lemma_pow16_step((n - 1) as nat);
    }
}

/// The text of one hexadecimal digit.
fn digit_text(d: u64) -> (r: &'static str)
    requires
        d < 16,
    ensures
        r@ == seq![hex_digit(d as int)],
{
    proof {
        reveal_strlit("0");
        reveal_strlit("1");
        reveal_strlit("2");
        reveal_strlit("3");
        reveal_strlit("4");
        reveal_strlit("5");
        reveal_strlit("6");
        reveal_strlit("7");
        reveal_strlit("8");
        reveal_strlit("9");
        reveal_strlit("a");
        reveal_strlit("b");
        reveal_strlit("c");
        reveal_strlit("d");
        reveal_strlit("e");
        reveal_strlit("f");
    }
    let r: &'static str = match d {
        0 => "0",
        1 => "1",
        2 => "2",
        3 => "3",
        4 => "4",
        5 => "5",
        6 => "6",
        7 => "7",
        8 => "8",
        9 => "9",
        10 => "a",
        11 => "b",
        12 => "c",
        13 => "d",
        14 => "e",
        _ => "f",
    };
    assert(r@ =~= seq![hex_digit(d as int)]);
    r
}

/// Appends the sixteen digits of `value` to `out`.
fn push_hex_id(out: &mut String, value: u64)
    ensures
        final(out)@ == old(out)@ + hex_id(value),
{
    let ghost before = out@;
    let mut divisor: u64 = 0x1000_0000_0000_0000;
    let mut i: usize = 0;
    proof {
        reveal_with_fuel(pow16, 16);
        assert(pow16(15) == 0x1000_0000_0000_0000);
        assert(hex_id(value).subrange(0, 0) =~= Seq::<char>::empty());
        assert(out@ =~= before + hex_id(value).subrange(0, 0));
    }
    while i < 16
        invariant
            i <= 16,
            i < 16 ==> divisor == pow16((15 - i) as nat),
            out@ == before + hex_id(value).subrange(0, i as int),
        decreases 16 - i,
    {
        proof {
            lemma_pow16_step((15 - i) as nat);
        }
        let d: u64 = (value / divisor) % 16;
        out.append(digit_text(d));
        proof {
            assert(hex_id(value)[i as int] == hex_digit(d as int));
            assert(hex_id(value).subrange(0, i + 1) =~= hex_id(value).subrange(0, i as int).push(
                hex_id(value)[i as int],
            ));
            assert(out@ =~= before + hex_id(value).subrange(0, i + 1));
        }
        if i < 15 {
            proof {
                lemma_pow16_step((14 - i) as nat);
            }
            divisor = divisor / 16;
        }
        i = i + 1;
    }
    assert(hex_id(value).subrange(0, 16) =~= hex_id(value));
}

/// The digit at one place of an identifier's text names the value of that
/// place.
proof fn lemma_hex_digit_is_faithful(a: int, b: int)
    requires
        0 <= a < 16,
        0 <= b < 16,
        hex_digit(a) == hex_digit(b),
    ensures
        a == b,
{
}

/// Two identifiers with the same text agree from any place upward.
proof fn lemma_hex_id_agrees_above(a: u64, b: u64, place: nat)
    requires
        hex_id(a) == hex_id(b),
        place <= 16,
    ensures
        a as int / pow16(place) as int == b as int / pow16(place) as int,
    decreases 16 - place,
{
    if place == 16 {
        reveal_with_fuel(pow16, 17);
        assert(pow16(16) == 0x1_0000_0000_0000_0000);
    } else {
        lemma_hex_id_agrees_above(a, b, place + 1);
        lemma_pow16_step(place);
        let unit = pow16(place) as int;
        let digit_a = (a as int / unit) % 16;
        let digit_b = (b as int / unit) % 16;
        assert(hex_id(a)[15 - place] == hex_digit(digit_a));
        assert(hex_id(b)[15 - place] == hex_digit(digit_b));
        lemma_hex_digit_is_faithful(digit_a, digit_b);
        assert((a as int / unit) / 16 == a as int / (unit * 16)) by (nonlinear_arith)
            requires
                unit > 0,
                a >= 0,
        ;
        assert((b as int / unit) / 16 == b as int / (unit * 16)) by (nonlinear_arith)
            requires
                unit > 0,
                b >= 0,
        ;
    }
}

/// The text of an identifier names no other identifier.
pub proof fn lemma_hex_id_is_faithful(a: u64, b: u64)
    requires
        hex_id(a) == hex_id(b),
    ensures
        a == b,
{
    lemma_hex_id_agrees_above(a, b, 0);
    assert(pow16(0) == 1);
}

/// The propagated form is fifty-two characters long, with its colons in
/// fixed places, and it names no other context: contexts with the same text
/// are the same.
pub proof fn lemma_text_is_faithful(a: TraceContext, b: TraceContext)
    ensures
        a.text().len() == 52,
        a.text()[16] == ':' && a.text()[33] == ':' && a.text()[50] == ':',
        a.text() == b.text() ==> a == b,
{
    if a.text() == b.text() {
        assert(hex_id(a.trace_id) =~= a.text().subrange(0, 16));
        assert(hex_id(b.trace_id) =~= b.text().subrange(0, 16));
        assert(hex_id(a.span_id) =~= a.text().subrange(17, 33));
        assert(hex_id(b.span_id) =~= b.text().subrange(17, 33));
        assert(hex_id(a.parent_id) =~= a.text().subrange(34, 50));
        assert(hex_id(b.parent_id) =~= b.text().subrange(34, 50));
        assert(flags_text(a.sampled)[0] == a.text()[51]);
        assert(flags_text(b.sampled)[0] == b.text()[51]);
        lemma_hex_id_is_faithful(a.trace_id, b.trace_id);
        lemma_hex_id_is_faithful(a.span_id, b.span_id);
        lemma_hex_id_is_faithful(a.parent_id, b.parent_id);
    }
}

/// A span without references roots a trace that carries its own identifier.
pub proof fn lemma_unreferenced_span_roots_its_trace(span_id: u64)
    ensures
        TraceContext::derived(span_id, None, None).is_root(),
        TraceContext::derived(span_id, None, None).trace_id == span_id,
        TraceContext::derived(span_id, None, None).span_id == span_id,
{
}

/// A span with an open parent joins the parent's trace, below the parent.
pub proof fn lemma_child_joins_parent_trace(span_id: u64, parent: TraceContext)
    ensures
        TraceContext::derived(span_id, Some(parent), None).trace_id == parent.trace_id,
        TraceContext::derived(span_id, Some(parent), None).parent_id == parent.span_id,
        TraceContext::derived(span_id, Some(parent), None).span_id == span_id,
{
}

/// Where a span names both an open parent and an open predecessor, the
/// parent alone decides its context.
pub proof fn lemma_parent_takes_priority(
    span_id: u64,
    parent: TraceContext,
    predecessor: TraceContext,
)
    ensures
        TraceContext::derived(span_id, Some(parent), Some(predecessor)) == TraceContext::derived(
            span_id,
            Some(parent),
            None,
        ),
{
}

/// A span with an open predecessor and no open parent joins the
/// predecessor's trace.
pub proof fn lemma_follower_joins_predecessor_trace(span_id: u64, predecessor: TraceContext)
    ensures
        TraceContext::derived(span_id, None, Some(predecessor)).trace_id == predecessor.trace_id,
        TraceContext::derived(span_id, None, Some(predecessor)).parent_id == predecessor.span_id,
{
}

} // verus!
