//! The `if` construct: one [`Then`] block, any number of [`ElseIf`] blocks and
//! at most one [`Else`] block, of which [`If`] shows exactly one.

use vstd::prelude::*;

verus! {

/// One block of an `if` construct, as built by [`Then`], [`ElseIf`] or [`Else`].
///
/// `V` is what the block shows: most often a renderer that is only called once
/// the block has been selected.
pub enum IfBlock<V> {
    /// The leading block, shown when the condition of the construct holds.
    If {
        /// What the block shows.
        children: V,
    },
    /// A block with a condition of its own.
    ElseIf {
        /// The current value of the block's condition.
        signal: bool,
        /// What the block shows.
        children: V,
    },
    /// The trailing block, shown when no condition holds.
    Else {
        /// What the block shows.
        children: V,
    },
}

impl<V> IfBlock<V> {
    /// Whether the block offers itself once the leading condition has failed:
    /// an `ElseIf` when its own condition holds, an `Else` always, an `If`
    /// never.
    pub open spec fn holds(self) -> bool {
        match self {
            IfBlock::If { .. } => false,
            IfBlock::ElseIf { signal, .. } => signal,
            IfBlock::Else { .. } => true,
        }
    }

    /// What the block shows.
    pub open spec fn content(self) -> V {
        match self {
            IfBlock::If { children } => children,
            IfBlock::ElseIf { children, .. } => children,
            IfBlock::Else { children } => children,
        }
    }

    /// Whether the block offers itself once the leading condition has failed.
    pub fn is_true(&self) -> (b: bool)
        ensures
            b == self.holds(),
    {
        if let IfBlock::ElseIf { signal, .. } = self {
            *signal
        } else {
            self.is_else()
        }
    }

    /// Whether this is a `Then` block.
    pub fn is_if(&self) -> (b: bool)
        ensures
            b == (self is If),
    {
        matches!(self, IfBlock::If { .. })
    }

    /// Whether this is an `Else` block.
    pub fn is_else(&self) -> (b: bool)
        ensures
            b == (self is Else),
    {
        matches!(self, IfBlock::Else { .. })
    }

    /// What the block shows, for the caller to render.
    pub fn render(&self) -> (children: &V)
        ensures
            *children == self.content(),
    {
        match self {
            IfBlock::If { children } => children,
            IfBlock::ElseIf { children, .. } => children,
            IfBlock::Else { children } => children,
        }
    }
}

/// Builds the leading block of an `if` construct: the one that is shown when
/// the condition given to [`If`] holds.
#[allow(non_snake_case)]
pub fn Then<V>(children: V) -> (block: IfBlock<V>)
    ensures
        block == (IfBlock::If { children }),
{
    IfBlock::If { children }
}

/// Builds a block with a condition of its own, whose current value is
/// `signal`. It is shown when the leading condition and the conditions of all
/// blocks before it fail and `signal` holds.
#[allow(non_snake_case)]
pub fn ElseIf<V>(signal: bool, children: V) -> (block: IfBlock<V>)
    ensures
        block == (IfBlock::ElseIf { signal, children }),
{
    IfBlock::ElseIf { signal, children }
}

/// Builds the trailing block, shown when every condition fails.
#[allow(non_snake_case)]
pub fn Else<V>(children: V) -> (block: IfBlock<V>)
    ensures
        block == (IfBlock::Else { children }),
{
    IfBlock::Else { children }
}

/// The ways in which the blocks handed to [`If`] can be out of shape.
#[derive(Clone, Copy, Debug, PartialEq, Eq, Structural)]
pub enum MalformedBranchSet {
    /// There is no block at all, or the first one is not a `Then` block.
    ThenNotFirst,
    /// A `Then` block stands after the first block.
    SeveralThen,
    /// An `Else` block stands before the last block.
    ElseNotLast,
}

impl MalformedBranchSet {
    /// The rule that was broken, in words.
    pub fn message(&self) -> (text: &'static str)
        ensures
            text@ == match *self {
                MalformedBranchSet::ThenNotFirst => "`<Show />` must be the first child of `<If />`"@,
                MalformedBranchSet::SeveralThen =>
                    "there must not be more than 1 `<Show />` children within `<If />`"@,
                MalformedBranchSet::ElseNotLast => "`<Else />` must be the last child of `<If />`"@,
            },
    {
        match self {
            MalformedBranchSet::ThenNotFirst => "`<Show />` must be the first child of `<If />`",
            MalformedBranchSet::SeveralThen =>
                "there must not be more than 1 `<Show />` children within `<If />`",
            MalformedBranchSet::ElseNotLast => "`<Else />` must be the last child of `<If />`",
        }
    }
}

/// The shape that [`If`] asks of its blocks: a `Then` block first and nowhere
/// else, and no `Else` block but possibly the last one. What stands between
/// the two are `ElseIf` blocks, in the order in which they were written.
pub open spec fn well_formed<V>(blocks: Seq<IfBlock<V>>) -> bool {
    &&& blocks.len() > 0
    &&& blocks[0] is If
    &&& forall|i: int| 0 < i < blocks.len() ==> !(#[trigger] blocks[i] is If)
    &&& forall|i: int| 0 <= i < blocks.len() - 1 ==> !(#[trigger] blocks[i] is Else)
}

/// The first rule of [`well_formed`] that `blocks` break, if any. The rules
/// are taken in a fixed order: the leading `Then`, then the stray `Then`, then
/// the early `Else`.
pub open spec fn shape_fault<V>(blocks: Seq<IfBlock<V>>) -> Option<MalformedBranchSet> {
    if blocks.len() == 0 || !(blocks[0] is If) {
        Some(MalformedBranchSet::ThenNotFirst)
    } else if exists|i: int| 0 < i < blocks.len() && #[trigger] blocks[i] is If {
        Some(MalformedBranchSet::SeveralThen)
    } else if exists|i: int| 0 <= i < blocks.len() - 1 && #[trigger] blocks[i] is Else {
        Some(MalformedBranchSet::ElseNotLast)
    } else {
        None
    }
}

/// Blocks are well formed exactly when they break no rule.
pub proof fn lemma_well_formed_iff_no_fault<V>(blocks: Seq<IfBlock<V>>)
    ensures
        well_formed(blocks) <==> shape_fault(blocks) is None,
{
}

/// Well-formed blocks are one `Then` block, then `ElseIf` blocks, then at
/// most one `Else` block.
pub proof fn lemma_well_formed_order<V>(blocks: Seq<IfBlock<V>>)
    requires
        well_formed(blocks),
    ensures
        blocks.first() is If,
        forall|i: int| 0 < i < blocks.len() - 1 ==> #[trigger] blocks[i] is ElseIf,
        blocks.len() > 1 ==> blocks.last() is ElseIf || blocks.last() is Else,
{
}

/// Checks the shape of the blocks of an `if` construct, and names the first
/// rule that they break.
pub fn run_debug_checks<V>(if_blocks: &Vec<IfBlock<V>>) -> (checked: Result<(), MalformedBranchSet>)
    ensures
        checked is Ok <==> well_formed(if_blocks@),
        checked == match shape_fault(if_blocks@) {
            Some(fault) => Err::<(), MalformedBranchSet>(fault),
            None => Ok(()),
        },
{
    let n: usize = if_blocks.len();
    if n == 0 || !if_blocks[0].is_if() {
        return Err(MalformedBranchSet::ThenNotFirst);
    }
    let mut i: usize = 1;
    while i < n
        invariant
            1 <= i <= n,
            n == if_blocks.len(),
            if_blocks@[0] is If,
            forall|j: int| 0 < j < i ==> !(#[trigger] if_blocks@[j] is If),
        decreases n - i,
    {
        if if_blocks[i].is_if() {
            return Err(MalformedBranchSet::SeveralThen);
        }
        i += 1;
    }
    let mut k: usize = 0;
    while k < n - 1
        invariant
            0 <= k <= n - 1,
            n == if_blocks.len(),
            if_blocks@[0] is If,
            forall|j: int| 0 < j < n ==> !(#[trigger] if_blocks@[j] is If),
            forall|j: int| 0 <= j < k ==> !(#[trigger] if_blocks@[j] is Else),
        decreases n - k,
    {
        if if_blocks[k].is_else() {
            return Err(MalformedBranchSet::ElseNotLast);
        }
        k += 1;
    }
    Ok(())
}

/// Block `i` is the first of `blocks` that offers itself.
pub open spec fn first_holding<V>(blocks: Seq<IfBlock<V>>, i: int) -> bool {
    &&& 0 <= i < blocks.len()
    &&& blocks[i].holds()
    &&& forall|j: int| 0 <= j < i ==> !(#[trigger] blocks[j]).holds()
}

/// The block that an `if` construct shows: the leading one when `signal`
/// holds, otherwise the first that offers itself, otherwise none.
pub open spec fn selected<V>(signal: bool, blocks: Seq<IfBlock<V>>) -> Option<int> {
    if signal {
        Some(0)
    } else if exists|i: int| first_holding(blocks, i) {
        Some(choose|i: int| first_holding(blocks, i))
    } else {
        None
    }
}

/// `shown`, a position as [`If`] keeps it between two passes, names the block
/// that is selected under `signal`.
pub open spec fn shows<V>(shown: Option<usize>, signal: bool, blocks: Seq<IfBlock<V>>) -> bool {
    match shown {
        Some(i) => selected(signal, blocks) == Some(i as int),
        None => selected(signal, blocks) is None,
    }
}

/// What is to be shown after a pass of [`If`].
#[derive(Clone, Copy, Debug, PartialEq, Eq, Structural)]
pub enum Rendering {
    /// The block at this position was not shown before: render it, show the
    /// result and keep it.
    Render(usize),
    /// The block that is selected is the one that was rendered last: show what
    /// was kept, and render nothing.
    Reuse,
    /// No block is selected: show empty content.
    Clear,
}

/// What a pass asks for when it selects `now` and the pass before it had
/// rendered `last`.
pub open spec fn rendering(now: Option<usize>, last: Option<usize>) -> Rendering {
    match now {
        Some(i) => if last == Some(i) {
            Rendering::Reuse
        } else {
            Rendering::Render(i)
        },
        None => Rendering::Clear,
    }
}

/// What one pass of [`If`] comes to.
#[derive(Debug, PartialEq, Eq)]
pub struct Pass {
    /// The positions of the blocks whose conditions have to be watched until
    /// the next pass.
    pub watched: Vec<usize>,
    /// What is to be shown.
    pub rendering: Rendering,
}

/// One pass of an `if` construct.
///
/// `signal` is the current value of the leading condition and `if_blocks` are
/// the blocks with the current values of theirs. `last_rendered_block` is the
/// memory of the construct: the position of the block that the pass before
/// this one selected, `None` at first and whenever none was selected.
///
/// Blocks that are out of shape are refused with the first rule they break,
/// and the memory is left as it was. Otherwise the memory becomes the position
/// of the selected block, and the result says two things: whether that block
/// has to be rendered, is the one rendered last, or does not exist; and which
/// conditions have to be watched, which are those of all `ElseIf` blocks,
/// whichever block was selected.
#[allow(non_snake_case)]
pub fn If<V>(
    signal: bool,
    if_blocks: &Vec<IfBlock<V>>,
    last_rendered_block: &mut Option<usize>,
) -> (outcome: Result<Pass, MalformedBranchSet>)
    ensures
        outcome is Ok <==> well_formed(if_blocks@),
        outcome matches Err(fault) ==> {
            &&& shape_fault(if_blocks@) == Some(fault)
            &&& *final(last_rendered_block) == *old(last_rendered_block)
        },
        outcome matches Ok(pass) ==> {
            &&& shows(*final(last_rendered_block), signal, if_blocks@)
            &&& pass.rendering == rendering(*final(last_rendered_block), *old(last_rendered_block))
            &&& lists_watched(if_blocks@, pass.watched@)
        },
{
    if let Err(fault) = run_debug_checks(if_blocks) {
        return Err(fault);
    }
    // Subscribe all `ElseIf` blocks
    let watched = subscriptions(if_blocks);

    let rendering = if signal {
        if !is_position(last_rendered_block, 0) {
            *last_rendered_block = Some(0);
            Rendering::Render(0)
        } else {
            Rendering::Reuse
        }
    } else if let Some(i) = find_true(if_blocks) {
        if !is_position(last_rendered_block, i) {
            *last_rendered_block = Some(i);
            Rendering::Render(i)
        } else {
            Rendering::Reuse
        }
    } else {
        *last_rendered_block = None;
        Rendering::Clear
    };
    Ok(Pass { watched, rendering })
}

/// Whether `last` is the position `i`.
fn is_position(last: &Option<usize>, i: usize) -> (same: bool)
    ensures
        same == (*last == Some(i)),
{
    match last {
        Some(at) => *at == i,
        None => false,
    }
}

/// The position of the first block that offers itself.
fn find_true<V>(if_blocks: &Vec<IfBlock<V>>) -> (found: Option<usize>)
    ensures
        found matches Some(i) ==> first_holding(if_blocks@, i as int),
        found is None ==> forall|i: int| !first_holding(if_blocks@, i),
{
    let mut i: usize = 0;
    while i < if_blocks.len()
        invariant
            0 <= i <= if_blocks.len(),
            forall|j: int| 0 <= j < i ==> !(#[trigger] if_blocks@[j]).holds(),
        decreases if_blocks.len() - i,
    {
        if if_blocks[i].is_true() {
            return Some(i);
        }
        i += 1;
    }
    None
}

/// At most one block is the first that offers itself.
pub proof fn lemma_first_holding_unique<V>(blocks: Seq<IfBlock<V>>, i: int, j: int)
    requires
        first_holding(blocks, i),
        first_holding(blocks, j),
    ensures
        i == j,
{
}

/// Block `i` is an `ElseIf` block whose condition holds.
pub open spec fn alternative_holds<V>(blocks: Seq<IfBlock<V>>, i: int) -> bool {
    &&& 0 <= i < blocks.len()
    &&& blocks[i] is ElseIf
    &&& blocks[i].holds()
}

/// The selection follows the order of precedence: the `Then` block when the
/// leading condition holds; otherwise the first `ElseIf` block whose condition
/// holds; otherwise the `Else` block, if there is one; otherwise nothing. The
/// block selected is always one of the blocks given.
pub proof fn lemma_priority_order<V>(signal: bool, blocks: Seq<IfBlock<V>>)
    requires
        well_formed(blocks),
    ensures
        signal ==> selected(signal, blocks) == Some(0int) && blocks[0] is If,
        !signal ==> forall|i: int|
            alternative_holds(blocks, i) && (forall|j: int| 0 <= j < i ==> !alternative_holds(
                blocks,
                j,
            )) ==> selected(signal, blocks) == Some(i),
        !signal && (forall|j: int| !alternative_holds(blocks, j)) && blocks.last() is Else
            ==> selected(signal, blocks) == Some(blocks.len() - 1),
        !signal && (forall|j: int| !alternative_holds(blocks, j)) && !(blocks.last() is Else)
            ==> selected(signal, blocks) is None,
        selected(signal, blocks) matches Some(i) ==> 0 <= i < blocks.len(),
{
    if !signal {
        // On well-formed blocks the `Then` block never offers itself, and an
        // `Else` block can only be the last: so before the last block, the
        // blocks that offer themselves are the `ElseIf` blocks that hold.
        assert forall|i: int|
            alternative_holds(blocks, i) && (forall|j: int|
                0 <= j < i ==> !alternative_holds(blocks, j)) implies selected(signal, blocks)
            == Some(i) by {
            assert forall|j: int| 0 <= j < i implies !(#[trigger] blocks[j]).holds() by {
                assert(!alternative_holds(blocks, j));
            }
            assert(first_holding(blocks, i));
            lemma_first_holding_unique(blocks, i, choose|k: int| first_holding(blocks, k));
        }
        if forall|j: int| !alternative_holds(blocks, j) {
            let last = blocks.len() - 1;
            assert forall|j: int| 0 <= j < last implies !(#[trigger] blocks[j]).holds() by {
                assert(!alternative_holds(blocks, j));
            }
            if blocks.last() is Else {
                assert(first_holding(blocks, last));
                lemma_first_holding_unique(blocks, last, choose|k: int| first_holding(blocks, k));
            } else {
                assert(!alternative_holds(blocks, last));
                assert forall|k: int| !first_holding(blocks, k) by {}
            }
        }
    }
}

/// The condition of block `i` is watched: every `ElseIf` block after the
/// leading block is, whatever the conditions are and whichever block is
/// shown.
pub open spec fn watches<V>(blocks: Seq<IfBlock<V>>, i: int) -> bool {
    &&& 0 < i < blocks.len()
    &&& blocks[i] is ElseIf
}

/// `watched` lists the positions of the blocks whose conditions are watched:
/// all of them, nothing else, in rising order.
pub open spec fn lists_watched<V>(blocks: Seq<IfBlock<V>>, watched: Seq<usize>) -> bool {
    &&& forall|k: int|
        0 <= k < watched.len() ==> 0 < (#[trigger] watched[k]) < blocks.len()
            && blocks[watched[k] as int] is ElseIf
    &&& forall|i: int| #[trigger] watches(blocks, i) ==> watched.contains(i as usize)
    &&& forall|k: int, l: int| 0 <= k < l < watched.len() ==> watched[k] < watched[l]
}

/// The positions of the blocks whose conditions a pass has to watch, in
/// rising order: all `ElseIf` blocks, also those behind the block that is
/// shown, so that a change of any of them brings on another pass.
pub fn subscriptions<V>(if_blocks: &Vec<IfBlock<V>>) -> (watched: Vec<usize>)
    ensures
        lists_watched(if_blocks@, watched@),
{
    let mut watched: Vec<usize> = Vec::new();
    let mut i: usize = 1;
    while i < if_blocks.len()
        invariant
            1 <= i,
            forall|k: int|
                0 <= k < watched.len() ==> 0 < (#[trigger] watched[k]) < i && watched[k]
                    < if_blocks.len() && if_blocks@[watched[k] as int] is ElseIf,
            forall|j: int| 0 < j < i && #[trigger] watches(if_blocks@, j) ==> watched@.contains(j as usize),
            forall|k: int, l: int| 0 <= k < l < watched.len() ==> watched[k] < watched[l],
        decreases if_blocks.len() - i,
    {
        if let IfBlock::ElseIf { .. } = &if_blocks[i] {
            let ghost before = watched@;
            watched.push(i);
            proof {
                assert(watched@[before.len() as int] == i);
                assert forall|j: int| 0 < j < i + 1 && #[trigger] watches(if_blocks@, j) implies watched@.contains(j as usize) by {
                    if j < i {
                        let k = choose|k: int| 0 <= k < before.len() && before[k] == j as usize;
                        assert(watched@[k] == j as usize);
                    }
                }
            }
        }
        i += 1;
    }
    watched
}

/// While a block is shown, the condition of every `ElseIf` block behind it is
/// still watched: its position is in the list that the pass gives out. When
/// such a condition turns true, the pass that follows selects the same block
/// as before, and so renders nothing anew.
pub proof fn lemma_later_alternative_watched<V>(
    signal: bool,
    blocks: Seq<IfBlock<V>>,
    watched: Seq<usize>,
    shown: int,
    later: int,
)
    requires
        well_formed(blocks),
        lists_watched(blocks, watched),
        selected(signal, blocks) == Some(shown),
        shown < later < blocks.len(),
        blocks[later] is ElseIf,
    ensures
        watched.contains(later as usize),
        ({
            let toggled = blocks.update(
                later,
                IfBlock::ElseIf { signal: true, children: blocks[later].content() },
            );
            &&& well_formed(toggled)
            &&& watches(toggled, later)
            &&& selected(signal, toggled) == Some(shown)
        }),
{
    let toggled = blocks.update(
        later,
        IfBlock::ElseIf { signal: true, children: blocks[later].content() },
    );
    assert(watches(blocks, later));
    lemma_priority_order(signal, blocks);
    if !signal {
        // Up to the block that is shown nothing has changed, so it is still
        // the first that offers itself.
        assert(first_holding(blocks, shown));
        assert forall|j: int| 0 <= j <= shown implies #[trigger] toggled[j] == blocks[j] by {}
        assert(first_holding(toggled, shown));
        lemma_first_holding_unique(toggled, shown, choose|i: int| first_holding(toggled, i));
    }
}

/// Two blocks are alike in what a selection looks at: their kind and, for
/// `ElseIf` blocks, the value of the condition. What they show may differ.
pub open spec fn same_condition<V, W>(one: IfBlock<V>, other: IfBlock<W>) -> bool {
    match one {
        IfBlock::If { .. } => other is If,
        IfBlock::ElseIf { signal, .. } => other is ElseIf && other.holds() == signal,
        IfBlock::Else { .. } => other is Else,
    }
}

/// Two lists of blocks are alike, block by block, in what a selection looks
/// at.
pub open spec fn same_conditions<V, W>(before: Seq<IfBlock<V>>, after: Seq<IfBlock<W>>) -> bool {
    &&& before.len() == after.len()
    &&& forall|i: int| 0 <= i < before.len() ==> same_condition(#[trigger] before[i], after[i])
}

/// The selection looks at the conditions alone: blocks that are alike in them
/// have the same block selected.
pub proof fn lemma_selection_by_conditions<V, W>(
    signal: bool,
    before: Seq<IfBlock<V>>,
    after: Seq<IfBlock<W>>,
)
    requires
        same_conditions(before, after),
    ensures
        selected(signal, before) == selected(signal, after),
        well_formed(before) <==> well_formed(after),
{
    // Block by block, the two lists offer the same.
    assert forall|i: int| 0 <= i < before.len() implies (#[trigger] before[i]).holds()
        == after[i].holds() by {
        assert(same_condition(before[i], after[i]));
    }
    assert forall|i: int| first_holding(before, i) <==> first_holding(after, i) by {
        if first_holding(before, i) {
            assert forall|j: int| 0 <= j < i implies !(#[trigger] after[j]).holds() by {
                assert(!before[j].holds());
            }
        }
    }
    if !signal && exists|i: int| first_holding(before, i) {
        let i = choose|i: int| first_holding(before, i);
        lemma_first_holding_unique(after, i, choose|k: int| first_holding(after, k));
    }
    // Block by block, they are of the same kind.
    if well_formed(before) {
        assert forall|i: int| 0 < i < after.len() implies !(#[trigger] after[i] is If) by {
            assert(same_condition(before[i], after[i]));
        }
        assert forall|i: int| 0 <= i < after.len() - 1 implies !(#[trigger] after[i] is Else) by {
            assert(same_condition(before[i], after[i]));
        }
    }
    if well_formed(after) {
        assert(same_condition(before[0], after[0]));
    }
}

/// A pass under conditions that have not changed since the pass before it
/// selects the same block, and asks for nothing to be rendered: what was kept
/// is shown again, or nothing is shown.
///
/// `first` is the memory after the earlier pass and `second` the memory after
/// the later one.
pub proof fn lemma_unchanged_conditions_render_nothing<V, W>(
    signal: bool,
    before: Seq<IfBlock<V>>,
    after: Seq<IfBlock<W>>,
    first: Option<usize>,
    second: Option<usize>,
)
    requires
        same_conditions(before, after),
        shows(first, signal, before),
        shows(second, signal, after),
    ensures
        second == first,
        !(rendering(second, first) is Render),
{
    lemma_selection_by_conditions(signal, before, after);
}

} // verus!
