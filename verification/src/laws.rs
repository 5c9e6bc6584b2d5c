//! What holds of the tape over a whole parse.

use vstd::math;
use vstd::prelude::*;
use vstd::utf8::*;

use crate::cursor::Cursor;
use crate::projection::TapeView;
use crate::steps::BuilderView;
use crate::tape::TapeEntry;
use crate::text;
use crate::tree::{Meta, NodeView, PosInt, TokenView};

verus! {

impl TapeView {
    /// Whether every entry is readable and has its children before it.
    pub open spec fn in_order(self) -> bool {
        forall|i: int|
            0 <= i < self.nodes.len() ==> {
                &&& self.readable(#[trigger] self.nodes[i])
                &&& self.kids_before(i)
            }
    }

    /// Whether the children of the entry at `i` precede it.
    pub open spec fn kids_before(self, i: int) -> bool {
        forall|k: int|
            0 <= k < self.children(self.nodes[i]).len() ==> (
            #[trigger] self.children(self.nodes[i])[k]) < i
    }

    /// Whether `longer` has all that this tape has, at the same places.
    pub open spec fn is_start_of(self, longer: TapeView) -> bool {
        &&& self.input == longer.input
        &&& self.rules == longer.rules
        &&& self.symbols == longer.symbols
        &&& self.nodes.is_prefix_of(longer.nodes)
        &&& self.kids.is_prefix_of(longer.kids)
    }

    /// The tape with another entry at `at`.
    pub open spec fn replaced(self, at: int, entry: TapeEntry) -> TapeView {
        TapeView { nodes: self.nodes.update(at, entry), ..self }
    }
}

/// On a tape in post-order every entry stands for a tree.
pub proof fn post_order_is_projectable(tape: TapeView, idx: int)
    requires
        tape.in_order(),
        0 <= idx < tape.nodes.len(),
    ensures
        tape.projectable(idx),
    decreases idx,
{
    let kids = tape.children(tape.nodes[idx]);
    assert(tape.kids_before(idx));
    assert forall|k: int| 0 <= k < kids.len() implies tape.projectable(
        #[trigger] kids[k] as int,
    ) by {
        post_order_is_projectable(tape, kids[k] as int);
    }
    tape.projection_unfolds(idx);
}

proof fn lemma_extension_resolves(tape: TapeView, longer: TapeView, idx: int, depth: nat)
    requires
        tape.is_start_of(longer),
        tape.resolves(idx, depth),
    ensures
        longer.resolves(idx, depth),
        longer.grown(idx, depth) == tape.grown(idx, depth),
    decreases depth,
{
    assert(longer.nodes[idx] == tape.nodes[idx]);
    let kids = tape.children(tape.nodes[idx]);
    if tape.nodes[idx] is Node {
        assert(longer.children(longer.nodes[idx]) =~= kids);
        assert forall|k: int| 0 <= k < kids.len() implies {
            &&& longer.resolves(#[trigger] kids[k] as int, (depth - 1) as nat)
            &&& longer.grown(kids[k] as int, (depth - 1) as nat) == tape.grown(
                kids[k] as int,
                (depth - 1) as nat,
            )
        } by {
            lemma_extension_resolves(tape, longer, kids[k] as int, (depth - 1) as nat);
        }
        assert(longer.grown(idx, depth)->children =~= tape.grown(idx, depth)->children);
    }
}

/// What an entry stands for is settled once it is on the tape: whatever is
/// appended later does not change it.
pub proof fn appending_keeps_projections(tape: TapeView, longer: TapeView, idx: int)
    requires
        tape.is_start_of(longer),
        tape.projectable(idx),
    ensures
        longer.projectable(idx),
        longer.projection(idx) == tape.projection(idx),
{
    let depth = choose|depth: nat| tape.resolves(idx, depth);
    lemma_extension_resolves(tape, longer, idx, depth);
    tape.lemma_grown(idx, depth);
    longer.lemma_grown(idx, depth);
}

proof fn lemma_replaced_resolves(tape: TapeView, idx: int, at: int, entry: TapeEntry, depth: nat)
    requires
        tape.resolves(idx, depth),
        0 <= at < tape.nodes.len(),
        idx != at,
        forall|k: int| 0 <= k < tape.kids.len() ==> #[trigger] tape.kids[k] != at,
    ensures
        tape.replaced(at, entry).resolves(idx, depth),
        tape.replaced(at, entry).grown(idx, depth) == tape.grown(idx, depth),
    decreases depth,
{
    let other = tape.replaced(at, entry);
    assert(other.nodes[idx] == tape.nodes[idx]);
    let kids = tape.children(tape.nodes[idx]);
    if let TapeEntry::Node { kids_start, .. } = tape.nodes[idx] {
        assert forall|k: int| 0 <= k < kids.len() implies {
            &&& other.resolves(#[trigger] kids[k] as int, (depth - 1) as nat)
            &&& other.grown(kids[k] as int, (depth - 1) as nat) == tape.grown(
                kids[k] as int,
                (depth - 1) as nat,
            )
        } by {
            assert(kids[k] == tape.kids[kids_start + k]);
            lemma_replaced_resolves(tape, kids[k] as int, at, entry, (depth - 1) as nat);
        }
        assert(other.grown(idx, depth)->children =~= tape.grown(idx, depth)->children);
    }
}

/// A walk over the tape never meets an orphan: an entry that stands in no child
/// range can be anything, and what every other entry stands for is the same.
pub proof fn orphans_are_invisible(tape: TapeView, idx: int, at: int, entry: TapeEntry)
    requires
        tape.projectable(idx),
        0 <= at < tape.nodes.len(),
        idx != at,
        forall|k: int| 0 <= k < tape.kids.len() ==> #[trigger] tape.kids[k] != at,
    ensures
        tape.replaced(at, entry).projectable(idx),
        tape.replaced(at, entry).projection(idx) == tape.projection(idx),
{
    let depth = choose|depth: nat| tape.resolves(idx, depth);
    lemma_replaced_resolves(tape, idx, at, entry, depth);
    tape.lemma_grown(idx, depth);
    tape.replaced(at, entry).lemma_grown(idx, depth);
}

/// Where the cursor is a place in the input, it can be moved to any character,
/// forwards or backwards, and its way there leaves no trace: it answers as a
/// fresh cursor does, and as it did when asked before.
pub proof fn seeks_are_independent(cursor: Cursor, input: Seq<char>, a: nat, b: nat)
    requires
        cursor.fits(input),
    ensures
        cursor.can_seek(input, a),
        cursor.seek(input, a).fits(input),
        cursor.seek(input, a).bytes == text::byte_offset(input, a),
        cursor.seek(input, a) == Cursor::start().seek(input, a),
        cursor.seek(input, a).seek(input, b) == cursor.seek(input, b),
{
}

/// Offsets come in the order of the characters they belong to, wherever the
/// cursor stood when it was asked for each: they grow strictly up to the end of
/// the input, and in ASCII input they are the character positions themselves.
pub proof fn seeks_keep_the_order(
    cursor: Cursor,
    later: Cursor,
    input: Seq<char>,
    a: nat,
    b: nat,
)
    requires
        cursor.fits(input),
        later.fits(input),
        a <= b,
    ensures
        cursor.seek(input, a).bytes <= later.seek(input, b).bytes,
        a < b <= input.len() ==> cursor.seek(input, a).bytes < later.seek(input, b).bytes,
        is_ascii_chars(input) ==> cursor.seek(input, a).bytes == text::clamp(input, a),
{
    text::lemma_offset_bounds(input, a, b);
}

/// As long as positions do not go back, neither does the cursor.
pub proof fn seeks_move_forward(cursor: Cursor, input: Seq<char>, n: nat)
    requires
        cursor.fits(input),
        cursor.chars <= n,
    ensures
        cursor.rewound(n) == cursor,
        cursor.chars <= cursor.seek(input, n).chars,
        cursor.bytes <= cursor.seek(input, n).bytes <= encode_utf8(input).len(),
{
    text::lemma_offset_bounds(input, cursor.chars, n);
}

/// A token's own strings never reach the tape: only its type and its positions
/// do.
pub proof fn token_strings_are_dropped(
    builder: BuilderView,
    token: TokenView,
    type_: Seq<char>,
    value: Seq<char>,
    input: Seq<char>,
)
    ensures
        builder.with_token((TokenView { type_, value, ..token }), input) == builder.with_token(
            token,
            input,
        ),
{
}

/// The text of an appended token is the stretch of the input between its
/// character positions, whatever characters the input is made of. Where a
/// position lies behind the input, the stretch ends with the input.
pub proof fn token_text_is_its_stretch(
    builder: BuilderView,
    token: TokenView,
    input: Seq<char>,
    rules: Seq<Seq<char>>,
    symbols: Seq<Seq<char>>,
    root: u32,
)
    requires
        builder.cursor.fits(input),
        builder.can_append(),
        token.start_pos <= token.end_pos,
        text::byte_offset(input, token.end_pos as nat) <= PosInt::MAX,
    ensures
        builder.can_append_token(token, input),
        builder.with_token(token, input).cursor.fits(input),
        builder.with_token(token, input).nodes.last() matches TapeEntry::Token {
            byte_start,
            byte_end,
            ..
        } && {
            let tape = builder.with_token(token, input).tape(input, rules, symbols, root);
            &&& tape.has_text(byte_start, byte_end)
            &&& tape.text(byte_start, byte_end) == input.subrange(
                text::clamp(input, token.start_pos as nat) as int,
                text::clamp(input, token.end_pos as nat) as int,
            )
        },
{
    let (a, b) = (token.start_pos as nat, token.end_pos as nat);
    text::lemma_offset_bounds(input, a, b);
    text::lemma_offset_is_boundary(input, a);
    text::lemma_offset_is_boundary(input, b);
    text::lemma_text_between(input, text::clamp(input, a), text::clamp(input, b));
}

/// A call that a parse engine makes of its output builder.
pub enum Event {
    Token(TokenView),
    Reduce { rule: usize, children: Seq<u32>, meta: Meta },
    Placeholder,
}

impl Event {
    /// Whether two calls differ at most in the strings of their tokens.
    pub open spec fn same_but_for_strings(self, other: Event) -> bool {
        match (self, other) {
            (Event::Token(a), Event::Token(b)) => a == (TokenView {
                type_: a.type_,
                value: a.value,
                ..b
            }),
            _ => self == other,
        }
    }
}

/// A parse as its output builder sees it: the input, the grammar names, and the
/// calls in their order.
pub struct Run {
    pub input: Seq<char>,
    pub rules: Seq<Seq<char>>,
    pub symbols: Seq<Seq<char>>,
    pub events: Seq<Event>,
}

impl Run {
    /// The run up to its `n`-th call.
    pub open spec fn first(self, n: int) -> Run {
        Run { events: self.events.take(n), ..self }
    }

    /// How many children were handed over in all.
    pub open spec fn handed_over(self) -> nat
        decreases self.events.len(),
    {
        if self.events.len() == 0 {
            0
        } else {
            let before = self.first(self.events.len() - 1).handed_over();
            match self.events.last() {
                Event::Reduce { children, .. } => before + children.len(),
                _ => before,
            }
        }
    }

    /// Whether two runs differ at most in the strings of their tokens.
    pub open spec fn same_but_for_strings(self, other: Run) -> bool {
        &&& self.input == other.input
        &&& self.rules == other.rules
        &&& self.symbols == other.symbols
        &&& self.events.len() == other.events.len()
        &&& forall|i: int|
            0 <= i < self.events.len() ==> (#[trigger] self.events[i]).same_but_for_strings(
                other.events[i],
            )
    }

    /// A token with the strings that belong to it: the name of its type, and
    /// the input between its positions.
    pub open spec fn spelled_out(self, token: TokenView) -> TokenView {
        TokenView {
            type_: self.symbols[token.type_id.0 as int],
            value: self.input.subrange(
                text::clamp(self.input, token.start_pos as nat) as int,
                text::clamp(self.input, token.end_pos as nat) as int,
            ),
            ..token
        }
    }

    /// The same calls, with tokens that carry the strings that belong to them.
    pub open spec fn with_strings(self) -> Run {
        Run {
            events: self.events.map_values(
                |event: Event|
                    match event {
                        Event::Token(token) => Event::Token(self.spelled_out(token)),
                        _ => event,
                    },
            ),
            ..self
        }
    }

    /// Whether the strings of the `i`-th call, if it is a token, are those that
    /// belong to it.
    pub open spec fn is_spelled_out(self, i: int) -> bool {
        self.events[i] matches Event::Token(token) ==> token == self.spelled_out(token)
    }

    /// Whether the `i`-th call is one that a parse makes, whatever strings its
    /// tokens carry: it shifts a token of a known type, with its positions in
    /// order and their offsets small enough to be stored, or reduces by a rule
    /// of the grammar what earlier calls returned.
    pub open spec fn is_call(self, i: int) -> bool {
        match self.events[i] {
            Event::Token(token) => {
                &&& token.type_id.0 < self.symbols.len()
                &&& token.start_pos <= token.end_pos
                &&& text::byte_offset(self.input, token.end_pos as nat) <= PosInt::MAX
            },
            Event::Reduce { rule, .. } => {
                &&& rule < self.rules.len()
                &&& rule <= u32::MAX
                &&& self.takes_earlier(i)
            },
            Event::Placeholder => true,
        }
    }

    /// Whether the `i`-th call, if it is a reduction, takes only what earlier
    /// calls returned.
    pub open spec fn takes_earlier(self, i: int) -> bool {
        self.events[i] matches Event::Reduce { children, .. } ==> forall|k: int|
            0 <= k < children.len() ==> (#[trigger] children[k]) < i
    }

    /// Whether what the `i`-th call leaves on the tape can be stored: its own
    /// index, the byte offsets of a token, the place where the children of a
    /// node begin.
    pub open spec fn is_storable(self, i: int) -> bool {
        &&& i <= u32::MAX
        &&& match self.events[i] {
            Event::Token(token) => {
                &&& text::byte_offset(self.input, token.start_pos as nat) <= PosInt::MAX
                &&& text::byte_offset(self.input, token.end_pos as nat) <= PosInt::MAX
            },
            Event::Reduce { .. } => self.first(i).handed_over() <= u32::MAX,
            Event::Placeholder => true,
        }
    }

    /// Whether these are the calls of a parse whose tape can be indexed by
    /// `u32`, whatever strings its tokens carry.
    pub open spec fn is_bare_parse(self) -> bool {
        &&& forall|i: int| 0 <= i < self.events.len() ==> #[trigger] self.is_call(i)
        &&& self.events.len() <= u32::MAX + 1
        &&& self.handed_over() <= u32::MAX
    }

    /// Whether these are the calls of such a parse, with tokens that carry
    /// their strings.
    pub open spec fn is_parse(self) -> bool {
        &&& self.is_bare_parse()
        &&& forall|i: int| 0 <= i < self.events.len() ==> #[trigger] self.is_spelled_out(i)
    }

    /// The tape builder after all calls.
    pub open spec fn builder(self) -> BuilderView
        decreases self.events.len(),
    {
        if self.events.len() == 0 {
            BuilderView::empty()
        } else {
            self.after(self.first(self.events.len() - 1).builder(), self.events.last())
        }
    }

    /// The tape builder after one more call.
    pub open spec fn after(self, builder: BuilderView, event: Event) -> BuilderView {
        match event {
            Event::Token(token) => builder.with_token(token, self.input),
            Event::Reduce { rule, children, meta } => builder.with_node(rule, children, meta),
            Event::Placeholder => builder.with_placeholder(),
        }
    }

    /// The tape that the run leaves behind.
    pub open spec fn tape(self, root: u32) -> TapeView {
        self.builder().tape(self.input, self.rules, self.symbols, root)
    }

    /// What the `i`-th call returns where the output is built of owned trees: a
    /// token is itself, a reduction is a node over what its children are.
    pub open spec fn owned(self, i: int) -> NodeView
        decreases i,
    {
        match self.events[i] {
            Event::Token(token) => NodeView::Token(token),
            Event::Reduce { rule, children, meta } => NodeView::Tree {
                data: self.rules[rule as int],
                children: children.map_values(
                    |kid: u32|
                        if kid < i {
                            self.owned(kid as int)
                        } else {
                            NodeView::Absent
                        },
                ),
                meta,
            },
            Event::Placeholder => NodeView::Absent,
        }
    }

    /// Whether the builder takes one more call.
    pub open spec fn takes(self, builder: BuilderView, event: Event) -> bool {
        match event {
            Event::Token(token) => builder.can_append_token(token, self.input),
            Event::Reduce { .. } => builder.can_append_node(),
            Event::Placeholder => builder.can_append(),
        }
    }
}

/// The tape of a run has one entry per call, and one child index per child that
/// was handed over: nothing else takes space.
pub proof fn space_is_exact(run: Run)
    ensures
        run.builder().nodes.len() == run.events.len(),
        run.builder().kids.len() == run.handed_over(),
    decreases run.events.len(),
{
    if run.events.len() > 0 {
        space_is_exact(run.first(run.events.len() - 1));
    }
}

/// The tape of the first calls of a run is a start of the tape of all its
/// calls, whichever entries were taken for their roots.
pub proof fn earlier_calls_make_a_start(run: Run, n: int, root: u32, other: u32)
    requires
        0 <= n <= run.events.len(),
    ensures
        run.first(n).tape(root).is_start_of(run.tape(other)),
        run.first(n).handed_over() <= run.handed_over(),
    decreases run.events.len() - n,
{
    if n == run.events.len() {
        assert(run.first(n).events =~= run.events);
    } else {
        earlier_calls_make_a_start(run, n + 1, root, other);
        assert(run.first(n + 1).first(n).events =~= run.first(n).events);
    }
}

/// What a call returned stands for the same tree from then on: neither later
/// calls nor the choice of a root change it.
pub proof fn handles_keep_their_tree(run: Run, n: int, root: u32, other: u32, idx: int)
    requires
        0 <= n <= run.events.len(),
        run.first(n).tape(root).projectable(idx),
    ensures
        run.tape(other).projectable(idx),
        run.tape(other).projection(idx) == run.first(n).tape(root).projection(idx),
{
    earlier_calls_make_a_start(run, n, root, other);
    appending_keeps_projections(run.first(n).tape(root), run.tape(other), idx);
}

/// The `i`-th call left the `i`-th entry, and its children where it found the
/// end of the child array.
proof fn lemma_entry(run: Run, i: int)
    requires
        0 <= i < run.events.len(),
    ensures
        ({
            let after = run.after(run.first(i).builder(), run.events[i]);
            &&& run.builder().nodes[i] == after.nodes.last()
            &&& after.kids.len() <= run.builder().kids.len() == run.handed_over()
            &&& forall|k: int|
                0 <= k < after.kids.len() ==> #[trigger] run.builder().kids[k] == after.kids[k]
        }),
{
    let upto = run.first(i + 1);
    assert(upto.first(i).events =~= run.first(i).events);
    earlier_calls_make_a_start(run, i + 1, 0, 0);
    space_is_exact(run);
    space_is_exact(upto);
    assert(upto.builder().kids == run.builder().kids.subrange(
        0,
        upto.builder().kids.len() as int,
    ));
}

/// The cursor of a run never leaves its input.
pub proof fn cursor_stays_in_the_input(run: Run)
    ensures
        run.builder().cursor.fits(run.input),
    decreases run.events.len(),
{
    if run.events.len() > 0 {
        cursor_stays_in_the_input(run.first(run.events.len() - 1));
    }
}

/// The builder takes a call if and only if what it leaves on the tape can be
/// stored. Nothing else matters: not the strings of a token, nor its type, nor
/// the rule or the children of a reduction.
pub proof fn every_storable_call_is_taken(run: Run, i: int)
    requires
        0 <= i < run.events.len(),
    ensures
        run.takes(run.first(i).builder(), run.events[i]) <==> run.is_storable(i),
{
    cursor_stays_in_the_input(run.first(i));
    space_is_exact(run.first(i));
}

/// The builder takes every call of a parse, whatever strings its tokens carry.
pub proof fn every_call_is_taken(run: Run, i: int)
    requires
        run.is_bare_parse(),
        0 <= i < run.events.len(),
    ensures
        run.takes(run.first(i).builder(), run.events[i]),
{
    assert(run.is_call(i));
    earlier_calls_make_a_start(run, i, 0, 0);
    if let Event::Token(token) = run.events[i] {
        text::lemma_offset_bounds(run.input, token.start_pos as nat, token.end_pos as nat);
    }
    every_storable_call_is_taken(run, i);
}

/// Children precede their parents on every tape whose calls were taken and
/// whose reductions took what earlier calls had returned.
pub proof fn children_precede_parents(run: Run, root: u32, i: int)
    requires
        forall|j: int| 0 <= j < run.events.len() ==> #[trigger] run.takes_earlier(j),
        forall|j: int|
            0 <= j < run.events.len() ==> run.takes(
                run.first(j).builder(),
                #[trigger] run.events[j],
            ),
        0 <= i < run.events.len(),
    ensures
        run.tape(root).kids_before(i),
{
    let tape = run.tape(root);
    assert(run.takes_earlier(i));
    assert(run.takes(run.first(i).builder(), run.events[i]));
    lemma_entry(run, i);
    if let Event::Reduce { children, .. } = run.events[i] {
        assert forall|k: int| 0 <= k < tape.children(tape.nodes[i]).len() implies (
        #[trigger] tape.children(tape.nodes[i])[k]) < i by {
            let start = run.first(i).builder().kids.len();
            assert(tape.children(tape.nodes[i])[k] == run.builder().kids[start + k]);
            assert(tape.children(tape.nodes[i])[k] == children[k]);
        }
    }
}

/// Each call of a parse leaves a readable entry at its own index, and that
/// entry holds what the call was handed: a token with its positions, its name
/// and its text, or a node with its rule, its source range and its children.
pub proof fn entries_hold_their_calls(run: Run, root: u32, i: int)
    requires
        run.is_bare_parse(),
        0 <= i < run.events.len(),
    ensures
        run.tape(root).readable(run.tape(root).nodes[i]),
        match run.events[i] {
            Event::Token(token) => {
                &&& run.tape(root).nodes[i] is Token
                &&& run.tape(root).token_of(run.tape(root).nodes[i]) == run.spelled_out(token)
            },
            Event::Reduce { rule, children, meta } => {
                &&& run.tape(root).nodes[i] matches TapeEntry::Node { rule: r, meta: m, .. }
                &&& r == rule && m == meta
                &&& run.tape(root).children(run.tape(root).nodes[i]) == children
            },
            Event::Placeholder => run.tape(root).nodes[i] is Absent,
        },
{
    let tape = run.tape(root);
    let before = run.first(i).builder();
    assert(run.is_call(i));
    lemma_entry(run, i);
    match run.events[i] {
        Event::Token(token) => {
            cursor_stays_in_the_input(run.first(i));
            space_is_exact(run.first(i));
            token_text_is_its_stretch(before, token, run.input, run.rules, run.symbols, root);
        },
        Event::Reduce { rule, children, meta } => {
            assert(tape.children(tape.nodes[i]) =~= children);
        },
        Event::Placeholder => {},
    }
}

/// The tape of a parse is in post-order, whatever strings its tokens carry:
/// children precede their parents, and all that an entry refers to is there.
pub proof fn tape_is_in_post_order(run: Run, root: u32)
    requires
        run.is_bare_parse(),
    ensures
        run.tape(root).in_order(),
{
    let tape = run.tape(root);
    space_is_exact(run);
    assert forall|i: int| 0 <= i < run.events.len() implies #[trigger] run.takes_earlier(i) by {
        assert(run.is_call(i));
    }
    assert forall|i: int| 0 <= i < run.events.len() implies run.takes(
        run.first(i).builder(),
        #[trigger] run.events[i],
    ) by {
        every_call_is_taken(run, i);
    }
    assert forall|i: int| 0 <= i < tape.nodes.len() implies {
        &&& tape.readable(#[trigger] tape.nodes[i])
        &&& tape.kids_before(i)
    } by {
        entries_hold_their_calls(run, root, i);
        children_precede_parents(run, root, i);
    }
}

/// What each call of a parse returned stands for what the call was handed,
/// whatever strings its tokens carry: a token for itself with its name and its
/// text, a placeholder for nothing, and a reduction for a node with its label,
/// its source range, and what its children stand for, in order.
pub proof fn handles_stand_for_their_calls(run: Run, root: u32, idx: int)
    requires
        run.is_bare_parse(),
        0 <= idx < run.events.len(),
    ensures
        run.tape(root).projectable(idx),
        run.tape(root).projection(idx) == (match run.events[idx] {
            Event::Token(token) => NodeView::Token(run.spelled_out(token)),
            Event::Reduce { rule, children, meta } => NodeView::Tree {
                data: run.rules[rule as int],
                children: children.map_values(
                    |kid: u32| run.tape(root).projection(kid as int),
                ),
                meta,
            },
            Event::Placeholder => NodeView::Absent,
        }),
{
    space_is_exact(run);
    tape_is_in_post_order(run, root);
    post_order_is_projectable(run.tape(root), idx);
    run.tape(root).projection_unfolds(idx);
    entries_hold_their_calls(run, root, idx);
}

/// The tape of a parse loses nothing. What each call returned stands for
/// exactly the owned tree that the same calls build of owned trees: the same
/// labels, the same tokens with their names and their text, the same source
/// ranges, in the same order.
pub proof fn tape_projects_to_owned_tree(run: Run, root: u32, idx: int)
    requires
        run.is_parse(),
        0 <= idx < run.events.len(),
    ensures
        run.tape(root).projectable(idx),
        run.tape(root).projection(idx) == run.owned(idx),
    decreases idx,
{
    let tape = run.tape(root);
    handles_stand_for_their_calls(run, root, idx);
    assert(run.is_call(idx) && run.is_spelled_out(idx));
    if let Event::Reduce { rule, children, meta } = run.events[idx] {
        assert forall|k: int| 0 <= k < children.len() implies tape.projection(
            #[trigger] children[k] as int,
        ) == run.owned(children[k] as int) by {
            tape_projects_to_owned_tree(run, root, children[k] as int);
        }
        assert(tape.projection(idx)->children =~= run.owned(idx)->children);
    }
}

/// No string of any token reaches the tape: runs that differ only in such
/// strings leave the same builder behind.
pub proof fn run_strings_are_dropped(calls: Run, run: Run)
    requires
        calls.same_but_for_strings(run),
    ensures
        calls.builder() == run.builder(),
    decreases run.events.len(),
{
    if run.events.len() > 0 {
        let last = run.events.len() - 1;
        run_strings_are_dropped(calls.first(last), run.first(last));
        assert(calls.events[last].same_but_for_strings(run.events[last]));
    }
}

/// Whatever strings the tokens of a parse carry, the same calls with the right
/// ones are a parse, too.
pub proof fn strings_can_be_supplied(calls: Run)
    requires
        calls.is_bare_parse(),
    ensures
        calls.same_but_for_strings(calls.with_strings()),
        calls.with_strings().is_parse(),
{
    let run = calls.with_strings();
    run_strings_are_dropped(calls, run);
    space_is_exact(calls);
    space_is_exact(run);
    assert forall|i: int| 0 <= i < run.events.len() implies {
        &&& #[trigger] run.is_call(i)
        &&& run.is_spelled_out(i)
    } by {
        assert(calls.is_call(i));
    }
}

/// A tape needs no strings to stand for them. Fed with the calls of a parse
/// whose tokens carry no strings, or any others, it stands for exactly the
/// owned tree that the same calls build where the tokens carry their own.
pub proof fn bare_tape_projects_to_owned_tree(calls: Run, run: Run, root: u32, idx: int)
    requires
        run.is_parse(),
        calls.same_but_for_strings(run),
        0 <= idx < run.events.len(),
    ensures
        calls.tape(root).projectable(idx),
        calls.tape(root).projection(idx) == run.owned(idx),
{
    run_strings_are_dropped(calls, run);
    tape_projects_to_owned_tree(run, root, idx);
}

/// The child array holds what reductions were handed, and nothing else: an
/// entry that no reduction took is an orphan.
pub proof fn only_children_are_referenced(run: Run, v: u32)
    ensures
        run.builder().kids.contains(v) <==> exists|i: int|
            0 <= i < run.events.len() && (#[trigger] run.events[i] matches Event::Reduce {
                children,
                ..
            } && children.contains(v)),
    decreases run.events.len(),
{
    if run.events.len() > 0 {
        let last = run.events.len() - 1;
        let shorter = run.first(last);
        only_children_are_referenced(shorter, v);
        assert(forall|i: int| 0 <= i < last ==> shorter.events[i] == #[trigger] run.events[i]);
        if let Event::Reduce { children, .. } = run.events[last] {
            let kids = shorter.builder().kids;
            assert(run.builder().kids == kids + children);
            if kids.contains(v) {
                let k = choose|k: int| 0 <= k < kids.len() && kids[k] == v;
                assert((kids + children)[k] == v);
            }
            if children.contains(v) {
                let k = choose|k: int| 0 <= k < children.len() && children[k] == v;
                assert((kids + children)[kids.len() + k] == v);
            }
        }
    }
}

/// Each call of any run leaves its own entry at its own index, whatever was
/// called before or after. A token leaves its type and its positions, and as
/// its span the encoded lengths of the input before its start and before its
/// end. The text of that span is the input between its positions. A reduction
/// leaves its rule, its source range and where its children begin, and there
/// they are, one by one. A placeholder leaves an absent entry.
pub proof fn calls_leave_their_entries(run: Run, root: u32, i: int)
    requires
        0 <= i < run.events.len(),
    ensures
        run.tape(root).nodes.len() == run.events.len(),
        match run.events[i] {
            Event::Token(token) => {
                let start = math::min(token.start_pos as int, run.input.len() as int);
                let end = math::min(token.end_pos as int, run.input.len() as int);
                let byte_start = encode_utf8(run.input.take(start)).len();
                let byte_end = encode_utf8(run.input.take(end)).len();
                byte_start <= PosInt::MAX && byte_end <= PosInt::MAX ==> {
                    &&& run.tape(root).nodes[i] == (TapeEntry::Token {
                        type_id: token.type_id,
                        byte_start: byte_start as PosInt,
                        byte_end: byte_end as PosInt,
                        line: token.line,
                        column: token.column,
                        end_line: token.end_line,
                        end_column: token.end_column,
                        start_pos: token.start_pos,
                        end_pos: token.end_pos,
                    })
                    &&& start <= end ==> run.tape(root).text(
                        byte_start as PosInt,
                        byte_end as PosInt,
                    ) == run.input.subrange(start, end)
                }
            },
            Event::Reduce { rule, children, meta } => {
                let kids_start = run.first(i).tape(root).kids.len();
                &&& run.tape(root).nodes[i] == (TapeEntry::Node {
                    rule: rule as u32,
                    kids_start: kids_start as u32,
                    kids_len: children.len() as u32,
                    meta,
                })
                &&& kids_start + children.len() <= run.tape(root).kids.len()
                &&& forall|k: int|
                    0 <= k < children.len() ==> #[trigger] children[k] == run.tape(
                        root,
                    ).kids[kids_start + k]
            },
            Event::Placeholder => run.tape(root).nodes[i] is Absent,
        },
{
    let before = run.first(i).builder();
    space_is_exact(run);
    lemma_entry(run, i);
    match run.events[i] {
        Event::Token(token) => {
            let (a, b) = (token.start_pos as nat, token.end_pos as nat);
            cursor_stays_in_the_input(run.first(i));
            if a <= b {
                text::lemma_offset_bounds(run.input, a, b);
            }
            if text::clamp(run.input, a) <= text::clamp(run.input, b) {
                text::lemma_text_between(
                    run.input,
                    text::clamp(run.input, a),
                    text::clamp(run.input, b),
                );
            }
        },
        Event::Reduce { rule, children, meta } => {
            let after = run.after(before, run.events[i]);
            assert forall|k: int| 0 <= k < children.len() implies #[trigger] children[k]
                == run.tape(root).kids[before.kids.len() + k] by {
                assert(after.kids[before.kids.len() + k] == children[k]);
            }
        },
        Event::Placeholder => {},
    }
}

/// A parse loses nothing. If its tokens have known types, their positions in
/// order and offsets that can be stored, and its reductions known rules and only
/// children that earlier calls returned, then each call's entry stands for what
/// the call was handed: a token with the name of its type, the input between its
/// positions, and its positions; a reduction with its label, its source range
/// and what its children stand for, one by one; a placeholder for nothing.
pub proof fn parses_lose_nothing(run: Run, root: u32, idx: int)
    requires
        run.events.len() <= u32::MAX + 1,
        run.tape(root).kids.len() <= u32::MAX,
        forall|i: int|
            0 <= i < run.events.len() ==> match #[trigger] run.events[i] {
                Event::Token(token) => {
                    &&& token.type_id.0 < run.symbols.len()
                    &&& token.start_pos <= token.end_pos
                    &&& encode_utf8(
                        run.input.take(math::min(token.end_pos as int, run.input.len() as int)),
                    ).len() <= PosInt::MAX
                },
                Event::Reduce { rule, children, .. } => {
                    &&& rule < run.rules.len()
                    &&& rule <= u32::MAX
                    &&& forall|k: int|
                        0 <= k < children.len() ==> (#[trigger] children[k]) < i
                },
                Event::Placeholder => true,
            },
        0 <= idx < run.events.len(),
    ensures
        run.tape(root).projectable(idx),
        match run.events[idx] {
            Event::Token(token) => run.tape(root).projection(idx) matches NodeView::Token(t) && {
                &&& t.type_id == token.type_id
                &&& t.type_ == run.symbols[token.type_id.0 as int]
                &&& t.value == run.input.subrange(
                    math::min(token.start_pos as int, run.input.len() as int),
                    math::min(token.end_pos as int, run.input.len() as int),
                )
                &&& t.line == token.line
                &&& t.column == token.column
                &&& t.end_line == token.end_line
                &&& t.end_column == token.end_column
                &&& t.start_pos == token.start_pos
                &&& t.end_pos == token.end_pos
            },
            Event::Reduce { rule, children, meta } => run.tape(root).projection(
                idx,
            ) matches NodeView::Tree { data, children: c, meta: m } && {
                &&& data == run.rules[rule as int]
                &&& m == meta
                &&& c.len() == children.len()
                &&& forall|k: int|
                    0 <= k < c.len() ==> #[trigger] c[k] == run.tape(root).projection(
                        children[k] as int,
                    )
            },
            Event::Placeholder => run.tape(root).projection(idx) is Absent,
        },
{
    space_is_exact(run);
    assert forall|i: int| 0 <= i < run.events.len() implies #[trigger] run.is_call(i) by {
    }
    handles_stand_for_their_calls(run, root, idx);
}

/// The root of a finished tape is the entry that it was given, however far up
/// it stands, and the tape stands for what that entry stands for.
pub proof fn roots_are_kept(run: Run, root: u32, other: u32)
    requires
        run.tape(other).projectable(root as int),
    ensures
        run.tape(root).root == root,
        run.tape(root).projectable(run.tape(root).root as int),
        run.tape(root).projection(run.tape(root).root as int) == run.tape(other).projection(
            root as int,
        ),
{
    appending_keeps_projections(run.tape(other), run.tape(root), root as int);
}

} // verus!
