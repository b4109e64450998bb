//! What a block's generator says the block did.

use std::collections::HashSet;

use vstd::prelude::*;

use crate::clvm::{
    atom, building, find_spend, first, fresh_arena, generator_arguments, generator_effects,
    generator_run, is_atom, list_effects, new_arena, next, node_to_bytes, nodes, parse_program,
    parsed_program, parsing,
    program_value, refs_view, rest, run_generator, run_program, running, serialised,
    setup_arguments, spend_in, spend_nodes, stands_for, Clvm,
};
use crate::hexadecimal::{hex_of, hex_text, parse_hex, prefixed, read_hex};
use crate::protocol::Coin;
use crate::types::{
    self, conditioned_view, conditions_view, records_view, spends_view, texts_view,
    AdditionsAndRemovals, ChiaQueryError, CoinRecord, CoinSpend, CoinSpendWithConditions, CoinView,
    Condition, ConditionView, ConditionedView, ErrorView, RecordView, SpendView,
};
use crate::NetworkType;

use super::translate::{
    created_records, make_coin_spend, record_created, record_spent, spent_records,
};

verus! {

/// The parts of a block that its effects are read from.
#[derive(Debug, PartialEq, Eq)]
pub struct FullBlock {
    /// The program that lists the block's spends, in a block that has any.
    pub transactions_generator: Option<Vec<u8>>,
    /// The rewards the block pays out, in a block that carries transaction information.
    pub reward_claims_incorporated: Option<Vec<Coin>>,
    /// The time of the block, in a block that carries one.
    pub timestamp: Option<u64>,
}

impl FullBlock {
    /// The generator is no longer than its length field can say.
    pub open spec fn fits_the_wire(&self) -> bool {
        self.transactions_generator matches Some(generator) ==> generator@.len() <= u32::MAX
    }

    /// The time of the block, or zero.
    pub open spec fn time(&self) -> u64 {
        match self.timestamp {
            Some(timestamp) => timestamp,
            None => 0,
        }
    }

    /// The records of the rewards the block pays out.
    pub open spec fn rewards(&self, height: u32) -> Seq<RecordView> {
        match self.reward_claims_incorporated {
            Some(claims) => created_records(claims@, height, true, self.time()),
            None => Seq::empty(),
        }
    }
}

/// The time of the block, or zero.
pub fn block_timestamp(block: &FullBlock) -> (timestamp: u64)
    ensures
        timestamp == block.time(),
{
    match block.timestamp {
        Some(timestamp) => timestamp,
        None => 0,
    }
}

/// The rewards the block at `height` pays out.
pub fn reward_coins(block: &FullBlock, height: u32) -> (records: Vec<CoinRecord>)
    ensures
        records_view(records@) == block.rewards(height),
{
    match &block.reward_claims_incorporated {
        Some(claims) => record_created(claims.as_slice(), height, true, block_timestamp(block)),
        None => {
            let records: Vec<CoinRecord> = Vec::new();
            assert(records_view(records@) =~= Seq::<RecordView>::empty());
            records
        },
    }
}

/// What the block at `height` added and removed, as the effects of its generator tell.
pub fn effects_to_response(
    block: &FullBlock,
    height: u32,
    effects: Result<(Vec<Coin>, Vec<Coin>), String>,
) -> (response: Result<AdditionsAndRemovals, ChiaQueryError>)
    ensures
        match (response, effects) {
            (Ok(r), Ok(e)) => records_view(r.additions@) == created_records(
                e.0@,
                height,
                false,
                block.time(),
            ) + block.rewards(height) && records_view(r.removals@) == spent_records(e.1@, height),
            (Err(e), Err(text)) => e@ == ErrorView::PeerConnection(
                "CLVM execution failed: "@ + text@,
            ),
            _ => false,
        },
{
    match effects {
        Ok((added, removed)) => {
            let mut additions = record_created(
                added.as_slice(),
                height,
                false,
                block_timestamp(block),
            );
            let mut rewards = reward_coins(block, height);
            assert(records_view(additions@ + rewards@) =~= records_view(additions@) + records_view(
                rewards@,
            ));
            additions.append(&mut rewards);
            Ok(AdditionsAndRemovals { additions, removals: record_spent(removed.as_slice(), height) })
        },
        Err(text) => {
            let message = String::from_str("CLVM execution failed: ").concat(text.as_str());
            Err(ChiaQueryError::PeerConnection(message))
        },
    }
}

/// Whether `answer` is what a block at `height` added and removed, or why that cannot be told.
pub open spec fn effects_answer(
    block: FullBlock,
    height: u32,
    network: NetworkType,
    answer: Result<AdditionsAndRemovals, ChiaQueryError>,
) -> bool {
    match block.transactions_generator {
        None => answer matches Ok(r) && records_view(r.additions@) == block.rewards(height)
            && records_view(r.removals@) == Seq::<RecordView>::empty(),
        Some(generator) => match (answer, generator_effects(generator@, network)) {
            (Ok(r), Ok(e)) => records_view(r.additions@) == created_records(
                e.0,
                height,
                false,
                block.time(),
            ) + block.rewards(height) && records_view(r.removals@) == spent_records(
                e.1,
                height,
            ),
            (Err(e), Err(text)) => e@ == ErrorView::PeerConnection(
                "CLVM execution failed: "@ + text,
            ),
            _ => false,
        },
    }
}

/// What the block at `height` added and removed. A block without a generator adds its rewards
/// and removes nothing.
pub fn block_additions_and_removals(block: &FullBlock, height: u32, network: NetworkType) -> (
    response: Result<AdditionsAndRemovals, ChiaQueryError>)
    ensures
        effects_answer(*block, height, network, response),
{
    match &block.transactions_generator {
        None => {
            let removals: Vec<CoinRecord> = Vec::new();
            assert(records_view(removals@) =~= Seq::<RecordView>::empty());
            Ok(AdditionsAndRemovals { additions: reward_coins(block, height), removals })
        },
        Some(generator) => {
            let effects = list_effects(generator.as_slice(), network);
            effects_to_response(block, height, effects)
        },
    }
}

/// The bytes of a tree, or none where it cannot be written out.
pub open spec fn bytes_or_none(tree: Clvm) -> Seq<u8> {
    match serialised(tree) {
        Some(bytes) => bytes,
        None => Seq::empty(),
    }
}

/// The spend of `coin` by a puzzle and a solution.
pub open spec fn revealed(coin: Coin, puzzle: Clvm, solution: Clvm) -> SpendView {
    SpendView {
        coin: CoinView::of(coin),
        puzzle_reveal: prefixed(bytes_or_none(puzzle)),
        solution: prefixed(bytes_or_none(solution)),
    }
}

/// The spends of `coins` that a generator's output holds, in order.
pub open spec fn spends_in(output: Clvm, coins: Seq<Coin>) -> Seq<SpendView>
    decreases coins.len(),
{
    if coins.len() == 0 {
        Seq::empty()
    } else {
        let before = spends_in(output, coins.drop_last());
        match spend_in(output, coins.last()) {
            Some(spend) => before.push(revealed(coins.last(), spend.0, spend.1)),
            None => before,
        }
    }
}

/// Writes a tree out, or nothing where it cannot be written out.
fn write_or_nothing(arena: &clvmr::Allocator, node: clvmr::NodePtr) -> (bytes: Vec<u8>)
    requires
        nodes(*arena).dom().contains(node),
    ensures
        bytes@ == bytes_or_none(nodes(*arena)[node]),
{
    match node_to_bytes(arena, node) {
        Some(bytes) => bytes,
        None => Vec::new(),
    }
}

/// The spend of `coin` by a puzzle and a solution.
fn reveal_spend(
    arena: &clvmr::Allocator,
    coin: &Coin,
    puzzle: clvmr::NodePtr,
    solution: clvmr::NodePtr,
) -> (spend: CoinSpend)
    requires
        nodes(*arena).dom().contains(puzzle),
        nodes(*arena).dom().contains(solution),
    ensures
        spend@ == revealed(*coin, nodes(*arena)[puzzle], nodes(*arena)[solution]),
{
    let puzzle_bytes = write_or_nothing(arena, puzzle);
    let solution_bytes = write_or_nothing(arena, solution);
    make_coin_spend(coin, puzzle_bytes.as_slice(), solution_bytes.as_slice())
}

/// The spends of `coins` that a generator's output holds. A coin the output does not hold is left
/// out.
pub fn collect_spends(
    arena: &clvmr::Allocator,
    output: clvmr::NodePtr,
    backrefs: &HashSet<clvmr::NodePtr>,
    coins: &[Coin],
) -> (spends: Vec<CoinSpend>)
    requires
        nodes(*arena).dom().contains(output),
    ensures
        spends_view(spends@) == spends_in(nodes(*arena)[output], coins@),
{
    let mut spends: Vec<CoinSpend> = Vec::new();
    let mut i: usize = 0;
    assert(spends_view(spends@) =~= Seq::<SpendView>::empty());
    while i < coins.len()
        invariant
            i <= coins.len(),
            nodes(*arena).dom().contains(output),
            spends_view(spends@) == spends_in(nodes(*arena)[output], coins@.take(i as int)),
        decreases coins.len() - i,
    {
        assert(coins@.take(i + 1).drop_last() =~= coins@.take(i as int));
        if let Some((puzzle, solution)) = find_spend(arena, output, backrefs, &coins[i]) {
            let spend = reveal_spend(arena, &coins[i], puzzle, solution);
            assert(spends_view(spends@.push(spend)) =~= spends_view(spends@).push(spend@));
            spends.push(spend);
        }
        i = i + 1;
    }
    assert(coins@.take(i as int) =~= coins@);
    spends
}

/// What a generator puts out when it is run on its arguments.
pub open spec fn generator_output(generator: Seq<u8>) -> Clvm {
    program_value(parsed_program(generator), generator_arguments(Seq::empty()))
}

/// A generator that has been run: the arena, the coins it spends, what it put out, and the nodes
/// it refers back to.
pub struct GeneratorRun {
    pub arena: clvmr::Allocator,
    pub coins: Vec<Coin>,
    pub output: clvmr::NodePtr,
    pub backrefs: HashSet<clvmr::NodePtr>,
}

/// Whether `e` says that `stage` failed.
pub open spec fn failed_in(stage: Seq<char>, e: ErrorView) -> bool {
    exists|text: Seq<char>| e == ErrorView::PeerConnection(#[trigger] (stage + text))
}

/// Takes what a stage of a generator's run came to. A failure is reported under the stage's name.
pub fn stage<T>(name: &str, outcome: Result<T, String>) -> (taken: Result<T, ChiaQueryError>)
    ensures
        match (taken, outcome) {
            (Ok(t), Ok(o)) => t == o,
            (Err(e), Err(text)) => e@ == ErrorView::PeerConnection(name@ + text@) && failed_in(
                name@,
                e@,
            ),
            _ => false,
        },
{
    match outcome {
        Ok(value) => Ok(value),
        Err(text) => {
            let ghost said = name@ + text@;
            Err(ChiaQueryError::PeerConnection(String::from_str(name).concat(text.as_str())))
        },
    }
}

/// How the run of a generator fails.
pub enum RunFailure {
    /// The generator is not valid.
    Invalid,
    /// It is valid, and a later stage fails with this text.
    Later(Seq<char>),
}

impl RunFailure {
    /// Whether `e` reports this failure. Of a generator that is not valid, only the stage is told
    /// for certain.
    pub open spec fn is_told_by(self, e: ErrorView) -> bool {
        match self {
            RunFailure::Invalid => failed_in("run_block_generator2 failed: "@, e),
            RunFailure::Later(text) => e == ErrorView::PeerConnection(text),
        }
    }
}

/// Where the run of a generator ends: the arena it leaves, the coins it spends and the node of what
/// it put out, or how it fails.
pub open spec fn run_end(generator: Seq<u8>, network: NetworkType) -> Result<
    (clvmr::Allocator, Seq<Coin>, clvmr::NodePtr),
    RunFailure,
> {
    match generator_run(generator, network) {
        None => Err(RunFailure::Invalid),
        Some((started, coins)) => {
            let parsed = parsing(started, generator);
            let built = building(parsed.0, Seq::empty());
            match (parsed.1, built.1) {
                (Err(text), _) => Err(RunFailure::Later("parse generator: "@ + text)),
                (Ok(_), Err(text)) => Err(RunFailure::Later("setup args: "@ + text)),
                (Ok(program), Ok(arguments)) => {
                    let ran = running(built.0, program, arguments, network);
                    match ran.1 {
                        Err(text) => Err(RunFailure::Later("run_program: "@ + text)),
                        Ok(output) => Ok((ran.0, coins, output)),
                    }
                },
            }
        },
    }
}

/// Runs a generator, once for the coins it spends and once for what it puts out.
///
/// The second run can fail where the first did not: it shares the arena with it.
pub fn run(generator: &Vec<u8>, network: NetworkType) -> (ran: Result<
    GeneratorRun,
    ChiaQueryError,
>)
    requires
        generator@.len() <= u32::MAX,
    ensures
        match (ran, run_end(generator@, network)) {
            (Ok(r), Ok(end)) => end == (r.arena, r.coins@, r.output) && stands_for(
                r.arena,
                r.output,
                generator_output(generator@),
            ),
            (Err(e), Err(failure)) => failure.is_told_by(e@),
            _ => false,
        },
{
    let (mut arena, coins) = match stage("run_block_generator2 failed: ", run_generator(generator.as_slice(), network)) {
        Ok(started) => started,
        Err(e) => return Err(e),
    };
    let (program, backrefs) = match stage("parse generator: ", parse_program(&mut arena, generator.as_slice())) {
        Ok(parsed) => parsed,
        Err(e) => return Err(e),
    };
    let block_refs: Vec<Vec<u8>> = Vec::new();
    assert(refs_view(block_refs@) =~= Seq::<Seq<u8>>::empty());
    let ghost parsed = arena;
    let arguments = match stage("setup args: ", setup_arguments(&mut arena, &block_refs)) {
        Ok(arguments) => arguments,
        Err(e) => return Err(e),
    };
    assert(nodes(parsed).dom().contains(program));
    assert(nodes(arena).dom().contains(program));
    let output = match stage("run_program: ", run_program(&mut arena, program, arguments, network)) {
        Ok(output) => output,
        Err(e) => return Err(e),
    };
    Ok(GeneratorRun { arena, coins, output, backrefs })
}

/// Whether `answer` is the spends of a block, or why they cannot be told.
pub open spec fn spends_answer(
    block: FullBlock,
    network: NetworkType,
    answer: Result<Vec<CoinSpend>, ChiaQueryError>,
) -> bool {
    match block.transactions_generator {
        None => answer matches Ok(s) && spends_view(s@) == Seq::<SpendView>::empty(),
        Some(generator) => match (answer, run_end(generator@, network)) {
            (Ok(s), Ok((_, coins, _))) => spends_view(s@) == spends_in(
                generator_output(generator@),
                coins,
            ),
            (Err(e), Err(failure)) => failure.is_told_by(e@),
            _ => false,
        },
    }
}

/// The spends of a block. A block without a generator has none.
pub fn block_spends(block: &FullBlock, network: NetworkType) -> (spends: Result<
    Vec<CoinSpend>,
    ChiaQueryError,
>)
    requires
        block.fits_the_wire(),
    ensures
        spends_answer(*block, network, spends),
{
    match &block.transactions_generator {
        None => {
            let spends: Vec<CoinSpend> = Vec::new();
            assert(spends_view(spends@) =~= Seq::<SpendView>::empty());
            Ok(spends)
        },
        Some(generator) => match run(generator, network) {
            Ok(ran) => Ok(
                collect_spends(&ran.arena, ran.output, &ran.backrefs, ran.coins.as_slice()),
            ),
            Err(e) => Err(e),
        },
    }
}

/// One argument of a condition in hex: an atom as it is, a pair written out. One that cannot be
/// written out is left out.
pub open spec fn argument(tree: Clvm) -> Option<Seq<char>> {
    match tree {
        Clvm::Atom(bytes) => Some(prefixed(bytes)),
        Clvm::Pair(_, _) => match serialised(tree) {
            Some(bytes) => Some(prefixed(bytes)),
            None => None,
        },
    }
}

/// The arguments in a list, up to whatever ends it.
pub open spec fn arguments_of(list: Clvm) -> Seq<Seq<char>>
    decreases list,
{
    match list {
        Clvm::Atom(_) => Seq::empty(),
        Clvm::Pair(first, rest) => match argument(*first) {
            Some(text) => seq![text] + arguments_of(*rest),
            None => arguments_of(*rest),
        },
    }
}

/// The condition a tree stands for: an atom for its opcode, and a list of arguments. Anything else
/// is no condition.
pub open spec fn condition_of(tree: Clvm) -> Option<ConditionView> {
    match tree {
        Clvm::Pair(opcode, list) => match *opcode {
            Clvm::Atom(bytes) => Some(
                ConditionView { opcode: prefixed(bytes), vars: arguments_of(*list) },
            ),
            Clvm::Pair(_, _) => None,
        },
        Clvm::Atom(_) => None,
    }
}

/// The conditions in a list, up to whatever ends it.
pub open spec fn conditions_of(list: Clvm) -> Seq<ConditionView>
    decreases list,
{
    match list {
        Clvm::Atom(_) => Seq::empty(),
        Clvm::Pair(first, rest) => match condition_of(*first) {
            Some(condition) => seq![condition] + conditions_of(*rest),
            None => conditions_of(*rest),
        },
    }
}

/// Writes one argument of a condition in hex.
fn write_argument(arena: &clvmr::Allocator, node: clvmr::NodePtr) -> (text: Option<String>)
    requires
        nodes(*arena).dom().contains(node),
    ensures
        match text {
            Some(t) => argument(nodes(*arena)[node]) == Some(t@),
            None => argument(nodes(*arena)[node]) is None,
        },
{
    if is_atom(arena, node) {
        let bytes = atom(arena, node);
        Some(hex_text(bytes.as_slice()))
    } else {
        match node_to_bytes(arena, node) {
            Some(bytes) => Some(hex_text(bytes.as_slice())),
            None => None,
        }
    }
}

/// Writes the arguments in a list.
fn write_arguments(arena: &clvmr::Allocator, list: clvmr::NodePtr) -> (vars: Vec<String>)
    requires
        nodes(*arena).dom().contains(list),
    ensures
        texts_view(vars@) == arguments_of(nodes(*arena)[list]),
{
    let ghost all = arguments_of(nodes(*arena)[list]);
    let mut vars: Vec<String> = Vec::new();
    let mut left: clvmr::NodePtr = list;
    assert(texts_view(vars@) =~= Seq::<Seq<char>>::empty());
    assert(texts_view(vars@) + arguments_of(nodes(*arena)[left]) =~= all);
    loop
        invariant
            nodes(*arena).dom().contains(left),
            texts_view(vars@) + arguments_of(nodes(*arena)[left]) == all,
        ensures
            texts_view(vars@) == all,
        decreases nodes(*arena)[left],
    {
        let ghost before = texts_view(vars@);
        let (item, tail) = match next(arena, left) {
            Ok(Some(parts)) => parts,
            _ => {
                assert(before + Seq::<Seq<char>>::empty() =~= before);
                break ;
            },
        };
        if let Some(text) = write_argument(arena, item) {
            assert(texts_view(vars@.push(text)) =~= before.push(text@));
            assert(before.push(text@) + arguments_of(nodes(*arena)[tail]) =~= before + (seq![text@]
                + arguments_of(nodes(*arena)[tail])));
            vars.push(text);
        }
        left = tail;
    }
    vars
}

/// Reads the conditions a puzzle put out.
pub fn parse_conditions_public(arena: &clvmr::Allocator, output: clvmr::NodePtr) -> (conditions:
    Vec<Condition>)
    requires
        nodes(*arena).dom().contains(output),
    ensures
        conditions_view(conditions@) == conditions_of(nodes(*arena)[output]),
{
    let ghost all = conditions_of(nodes(*arena)[output]);
    let mut conditions: Vec<Condition> = Vec::new();
    let mut left: clvmr::NodePtr = output;
    assert(conditions_view(conditions@) =~= Seq::<ConditionView>::empty());
    assert(conditions_view(conditions@) + conditions_of(nodes(*arena)[left]) =~= all);
    loop
        invariant
            nodes(*arena).dom().contains(left),
            conditions_view(conditions@) + conditions_of(nodes(*arena)[left]) == all,
        ensures
            conditions_view(conditions@) == all,
        decreases nodes(*arena)[left],
    {
        let ghost before = conditions_view(conditions@);
        let (item, tail) = match next(arena, left) {
            Ok(Some(parts)) => parts,
            _ => {
                assert(before + Seq::<ConditionView>::empty() =~= before);
                break ;
            },
        };
        left = tail;
        let opcode_node: clvmr::NodePtr = match first(arena, item) {
            Some(node) => node,
            None => continue,
        };
        if !is_atom(arena, opcode_node) {
            continue;
        }
        let list: clvmr::NodePtr = match rest(arena, item) {
            Some(node) => node,
            None => continue,
        };
        let opcode_bytes = atom(arena, opcode_node);
        let condition = Condition {
            opcode: hex_text(opcode_bytes.as_slice()),
            vars: write_arguments(arena, list),
        };
        assert(conditions_view(conditions@.push(condition)) =~= before.push(condition@));
        assert(before.push(condition@) + conditions_of(nodes(*arena)[tail]) =~= before + (seq![
            condition@,
        ] + conditions_of(nodes(*arena)[tail])));
        conditions.push(condition);
    }
    conditions
}

/// The arena that running the puzzles of `coins` in turn leaves, from one that holds `output`.
pub open spec fn arena_after(
    arena: clvmr::Allocator,
    output: clvmr::NodePtr,
    coins: Seq<Coin>,
    network: NetworkType,
) -> clvmr::Allocator
    decreases coins.len(),
{
    if coins.len() == 0 {
        arena
    } else {
        let before = arena_after(arena, output, coins.drop_last(), network);
        match spend_nodes(before, output, coins.last()) {
            Some((puzzle, solution)) => running(before, puzzle, solution, network).0,
            None => before,
        }
    }
}

/// Whether the puzzle of `coin`, as the output in `arena` holds it, can be run there.
pub open spec fn runs_again(
    arena: clvmr::Allocator,
    output: clvmr::NodePtr,
    coin: Coin,
    network: NetworkType,
) -> bool {
    match spend_nodes(arena, output, coin) {
        Some((puzzle, solution)) => running(arena, puzzle, solution, network).1 is Ok,
        None => false,
    }
}

/// The spend of `coin` by a puzzle and a solution, with the conditions the puzzle puts out, or with
/// none where it could not be run.
pub open spec fn conditioned(
    coin: Coin,
    puzzle: Clvm,
    solution: Clvm,
    runs: bool,
) -> ConditionedView {
    ConditionedView {
        coin_spend: revealed(coin, puzzle, solution),
        conditions: if runs {
            conditions_of(program_value(puzzle, solution))
        } else {
            Seq::empty()
        },
    }
}

/// The spends of `coins` that a generator's output holds, in order, each with its conditions.
/// `tree` is what the node `output` stands for in `arena`, where the puzzles are run in turn.
pub open spec fn conditioned_in(
    arena: clvmr::Allocator,
    output: clvmr::NodePtr,
    tree: Clvm,
    coins: Seq<Coin>,
    network: NetworkType,
) -> Seq<ConditionedView>
    decreases coins.len(),
{
    if coins.len() == 0 {
        Seq::empty()
    } else {
        let before = conditioned_in(arena, output, tree, coins.drop_last(), network);
        let reached = arena_after(arena, output, coins.drop_last(), network);
        match spend_in(tree, coins.last()) {
            Some((puzzle, solution)) => before.push(
                conditioned(
                    coins.last(),
                    puzzle,
                    solution,
                    runs_again(reached, output, coins.last(), network),
                ),
            ),
            None => before,
        }
    }
}

/// The conditions a run of a puzzle came to: none where it failed.
pub fn conditions_of_run(arena: &clvmr::Allocator, ran: Result<clvmr::NodePtr, String>) -> (
    conditions: Vec<Condition>)
    requires
        ran matches Ok(value) ==> nodes(*arena).dom().contains(value),
    ensures
        conditions_view(conditions@) == (match ran {
            Ok(value) => conditions_of(nodes(*arena)[value]),
            Err(_) => Seq::empty(),
        }),
{
    match ran {
        Ok(value) => parse_conditions_public(arena, value),
        Err(_) => {
            let conditions: Vec<Condition> = Vec::new();
            assert(conditions_view(conditions@) =~= Seq::<ConditionView>::empty());
            conditions
        },
    }
}

/// Whether `answer` is the spends of a block with their conditions, or why they cannot be told.
pub open spec fn conditioned_answer(
    block: FullBlock,
    network: NetworkType,
    answer: Result<Vec<CoinSpendWithConditions>, ChiaQueryError>,
) -> bool {
    match block.transactions_generator {
        None => answer matches Ok(s) && conditioned_view(s@)
            == Seq::<ConditionedView>::empty(),
        Some(generator) => match (answer, run_end(generator@, network)) {
            (Ok(s), Ok((arena, coins, output))) => conditioned_view(s@) == conditioned_in(
                arena,
                output,
                generator_output(generator@),
                coins,
                network,
            ),
            (Err(e), Err(failure)) => failure.is_told_by(e@),
            _ => false,
        },
    }
}

/// The spends of a block, each with the conditions its puzzle put out. A puzzle that cannot be
/// run again put out none.
pub fn block_spends_with_conditions(block: &FullBlock, network: NetworkType) -> (spends: Result<
    Vec<CoinSpendWithConditions>,
    ChiaQueryError,
>)
    requires
        block.fits_the_wire(),
    ensures
        conditioned_answer(*block, network, spends),
{
    let generator = match &block.transactions_generator {
        None => {
            let spends: Vec<CoinSpendWithConditions> = Vec::new();
            assert(conditioned_view(spends@) =~= Seq::<ConditionedView>::empty());
            return Ok(spends);
        },
        Some(generator) => generator,
    };
    let GeneratorRun { mut arena, coins, output, backrefs } = match run(generator, network) {
        Ok(ran) => ran,
        Err(e) => return Err(e),
    };
    let ghost tree = generator_output(generator@);
    let ghost start = arena;
    let mut spends: Vec<CoinSpendWithConditions> = Vec::new();
    let mut i: usize = 0;
    assert(conditioned_view(spends@) =~= Seq::<ConditionedView>::empty());
    while i < coins.len()
        invariant
            i <= coins.len(),
            stands_for(arena, output, tree),
            arena == arena_after(start, output, coins@.take(i as int), network),
            conditioned_view(spends@) == conditioned_in(
                start,
                output,
                tree,
                coins@.take(i as int),
                network,
            ),
        decreases coins.len() - i,
    {
        assert(coins@.take(i + 1).drop_last() =~= coins@.take(i as int));
        if let Some((puzzle, solution)) = find_spend(&arena, output, &backrefs, &coins[i]) {
            let coin_spend = reveal_spend(&arena, &coins[i], puzzle, solution);
            let ghost earlier = arena;
            let ran = run_program(&mut arena, puzzle, solution, network);
            let conditions = conditions_of_run(&arena, ran);
            let spend = CoinSpendWithConditions { coin_spend, conditions };
            assert(conditioned_view(spends@.push(spend)) =~= conditioned_view(spends@).push(spend@));
            assert(nodes(earlier).dom().contains(output));
            spends.push(spend);
        }
        i = i + 1;
    }
    assert(coins@.take(i as int) =~= coins@);
    Ok(spends)
}

/// How running one spend by itself ends, in an arena of its own: it can be run, or this is said of
/// the stage that fails.
pub open spec fn spend_end(puzzle: Seq<u8>, solution: Seq<u8>, network: NetworkType) -> Result<
    (),
    Seq<char>,
> {
    let program = parsing(fresh_arena(0), puzzle);
    let arguments = parsing(program.0, solution);
    match (program.1, arguments.1) {
        (Err(text), _) => Err("parse puzzle: "@ + text),
        (Ok(_), Err(text)) => Err("parse solution: "@ + text),
        (Ok(p), Ok(a)) => match running(arguments.0, p, a, network).1 {
            Err(text) => Err("run_program: "@ + text),
            Ok(_) => Ok(()),
        },
    }
}

/// What running one spend tells: the spend with the conditions its puzzle puts out on its solution,
/// or why they cannot be told.
pub open spec fn spend_told(spend: SpendView, network: NetworkType) -> Result<
    ConditionedView,
    ErrorView,
> {
    match (read_hex(spend.puzzle_reveal), read_hex(spend.solution)) {
        (Err(e), _) => Err(e),
        (Ok(_), Err(e)) => Err(e),
        (Ok(puzzle), Ok(solution)) => match spend_end(puzzle, solution, network) {
            Err(text) => Err(ErrorView::PeerConnection(text)),
            Ok(()) => Ok(
                ConditionedView {
                    coin_spend: spend,
                    conditions: conditions_of(
                        program_value(parsed_program(puzzle), parsed_program(solution)),
                    ),
                },
            ),
        },
    }
}

/// Runs one spend, and tells the conditions its puzzle put out. Unlike among the spends of a block,
/// a puzzle that cannot be run is an error: the conditions are what was asked for.
pub fn spend_with_conditions(spend: &CoinSpend, network: NetworkType) -> (told: Result<
    CoinSpendWithConditions,
    ChiaQueryError,
>)
    ensures
        match told {
            Ok(t) => spend_told(spend@, network) == Ok::<ConditionedView, ErrorView>(t@),
            Err(e) => spend_told(spend@, network) == Err::<ConditionedView, ErrorView>(e@),
        },
{
    let puzzle = match parse_hex(spend.puzzle_reveal.as_str()) {
        Ok(bytes) => bytes,
        Err(e) => return Err(e),
    };
    let solution = match parse_hex(spend.solution.as_str()) {
        Ok(bytes) => bytes,
        Err(e) => return Err(e),
    };
    let mut arena = new_arena(0);
    let (program, _) = match stage("parse puzzle: ", parse_program(&mut arena, puzzle.as_slice())) {
        Ok(parsed) => parsed,
        Err(e) => return Err(e),
    };
    let ghost parsed = arena;
    let (arguments, _) = match stage(
        "parse solution: ",
        parse_program(&mut arena, solution.as_slice()),
    ) {
        Ok(parsed) => parsed,
        Err(e) => return Err(e),
    };
    assert(nodes(parsed).dom().contains(program));
    assert(nodes(arena).dom().contains(program));
    let output = match stage("run_program: ", run_program(&mut arena, program, arguments, network)) {
        Ok(output) => output,
        Err(e) => return Err(e),
    };
    let conditions = parse_conditions_public(&arena, output);
    let coin = types::Coin {
        parent_coin_info: spend.coin.parent_coin_info.clone(),
        puzzle_hash: spend.coin.puzzle_hash.clone(),
        amount: spend.coin.amount,
    };
    let coin_spend = CoinSpend {
        coin,
        puzzle_reveal: spend.puzzle_reveal.clone(),
        solution: spend.solution.clone(),
    };
    Ok(CoinSpendWithConditions { coin_spend, conditions })
}

/// The spends alone, without their conditions.
pub open spec fn bare(views: Seq<ConditionedView>) -> Seq<SpendView> {
    views.map_values(|v: ConditionedView| v.coin_spend)
}

/// Conditions are read out beside the same spends, in the same order.
pub proof fn law_conditions_stand_beside_the_same_spends(
    arena: clvmr::Allocator,
    output: clvmr::NodePtr,
    tree: Clvm,
    coins: Seq<Coin>,
    network: NetworkType,
)
    ensures
        bare(conditioned_in(arena, output, tree, coins, network)) == spends_in(tree, coins),
    decreases coins.len(),
{
    if coins.len() > 0 {
        law_conditions_stand_beside_the_same_spends(
            arena,
            output,
            tree,
            coins.drop_last(),
            network,
        );
        let before = conditioned_in(arena, output, tree, coins.drop_last(), network);
        let all = conditioned_in(arena, output, tree, coins, network);
        assert(spend_in(tree, coins.last()) is Some ==> bare(all) =~= bare(before).push(
            all.last().coin_spend,
        ));
    } else {
        assert(bare(conditioned_in(arena, output, tree, coins, network)) =~= Seq::empty());
    }
}

/// A block's spends can be told with their conditions exactly when they can be told without, and
/// are the same spends in the same order. A block without a generator has none either way.
pub proof fn law_spends_are_told_with_conditions_exactly_when_without(
    block: FullBlock,
    network: NetworkType,
    spends: Result<Vec<CoinSpend>, ChiaQueryError>,
    with_conditions: Result<Vec<CoinSpendWithConditions>, ChiaQueryError>,
)
    requires
        spends_answer(block, network, spends),
        conditioned_answer(block, network, with_conditions),
    ensures
        spends is Ok <==> with_conditions is Ok,
        spends is Ok ==> bare(conditioned_view(with_conditions->Ok_0@)) == spends_view(
            spends->Ok_0@,
        ),
        block.transactions_generator is None ==> spends is Ok && spends_view(spends->Ok_0@)
            == Seq::<SpendView>::empty() && conditioned_view(with_conditions->Ok_0@)
            == Seq::<ConditionedView>::empty(),
{
    match block.transactions_generator {
        None => {
            assert(bare(Seq::empty()) =~= Seq::empty());
        },
        Some(generator) => if let Ok((arena, coins, output)) = run_end(generator@, network) {
            law_conditions_stand_beside_the_same_spends(
                arena,
                output,
                generator_output(generator@),
                coins,
                network,
            );
        },
    }
}

/// A spend that stands with no conditions is that of a puzzle that put out none, or of one that
/// could not be run where its turn came.
pub proof fn law_conditions_are_missing_only_where_a_puzzle_could_not_be_run(
    arena: clvmr::Allocator,
    output: clvmr::NodePtr,
    tree: Clvm,
    coins: Seq<Coin>,
    network: NetworkType,
    at: int,
)
    requires
        0 <= at < coins.len(),
        spend_in(tree, coins[at]) is Some,
    ensures
        ({
            let (puzzle, solution) = spend_in(tree, coins[at])->0;
            let reached = arena_after(arena, output, coins.take(at), network);
            let runs = runs_again(reached, output, coins[at], network);
            let told = conditioned_in(arena, output, tree, coins, network);
            let place = spends_in(tree, coins.take(at)).len() as int;
            &&& place < told.len()
            &&& told[place] == conditioned(coins[at], puzzle, solution, runs)
            &&& runs ==> told[place].conditions == conditions_of(program_value(puzzle, solution))
            &&& !runs ==> told[place].conditions == Seq::<ConditionView>::empty()
        }),
    decreases coins.len(),
{
    let shorter = coins.drop_last();
    law_conditions_stand_beside_the_same_spends(arena, output, tree, shorter, network);
    if at < shorter.len() {
        assert(shorter[at] == coins[at]);
        assert(shorter.take(at) =~= coins.take(at));
        law_conditions_are_missing_only_where_a_puzzle_could_not_be_run(
            arena,
            output,
            tree,
            shorter,
            network,
            at,
        );
    } else {
        assert(coins.take(at) =~= shorter);
    }
}

/// A list of `items`, ended by an atom.
pub open spec fn list_of(items: Seq<Clvm>, end: Seq<u8>) -> Clvm
    decreases items.len(),
{
    if items.len() == 0 {
        Clvm::Atom(end)
    } else {
        Clvm::Pair(Box::new(items[0]), Box::new(list_of(items.drop_first(), end)))
    }
}

/// Every argument of a condition that can be written out is told, in order: an atom by its bytes, and
/// a pair by its serialisation.
pub proof fn law_every_argument_is_told(items: Seq<Clvm>, end: Seq<u8>)
    requires
        forall|i: int|
            0 <= i < items.len() ==> (#[trigger] items[i]) is Atom || serialised(
                items[i],
            ) is Some,
    ensures
        arguments_of(list_of(items, end)).len() == items.len(),
        forall|i: int|
            #![trigger arguments_of(list_of(items, end))[i]]
            0 <= i < items.len() ==> arguments_of(list_of(items, end))[i] == "0x"@ + hex_of(
                match items[i] {
                    Clvm::Atom(bytes) => bytes,
                    Clvm::Pair(_, _) => serialised(items[i])->0,
                },
            ),
    decreases items.len(),
{
    let told = arguments_of(list_of(items, end));
    if items.len() > 0 {
        let tail = items.drop_first();
        let rest = arguments_of(list_of(tail, end));
        assert(forall|i: int| 0 <= i < tail.len() ==> tail[i] == items[i + 1]);
        law_every_argument_is_told(tail, end);
        assert(argument(items[0]) is Some);
        assert(told =~= seq![argument(items[0])->0] + rest);
        assert forall|i: int| 0 <= i < items.len() implies #[trigger] told[i] == "0x"@ + hex_of(
            match items[i] {
                Clvm::Atom(bytes) => bytes,
                Clvm::Pair(_, _) => serialised(items[i])->0,
            },
        ) by {
            if i > 0 {
                assert(told[i] == rest[i - 1]);
                assert(items[i] == tail[i - 1]);
            }
        }
    }
}

/// An argument that cannot be written out is left out, and changes nothing of the others.
pub proof fn law_only_unwritable_arguments_are_left_out(
    before: Seq<Clvm>,
    left: Clvm,
    right: Clvm,
    after: Seq<Clvm>,
    end: Seq<u8>,
)
    requires
        serialised(Clvm::Pair(Box::new(left), Box::new(right))) is None,
    ensures
        arguments_of(
            list_of(before + seq![Clvm::Pair(Box::new(left), Box::new(right))] + after, end),
        ) == arguments_of(list_of(before + after, end)),
    decreases before.len(),
{
    let lost = Clvm::Pair(Box::new(left), Box::new(right));
    if before.len() > 0 {
        let tail = before.drop_first();
        law_only_unwritable_arguments_are_left_out(tail, left, right, after, end);
        assert((before + seq![lost] + after).drop_first() =~= tail + seq![lost] + after);
        assert((before + after).drop_first() =~= tail + after);
    } else {
        assert((before + seq![lost] + after).drop_first() =~= after);
        assert(before + after =~= after);
    }
}

/// Every condition that a puzzle puts out is told, in order, with the bytes of its opcode and all
/// its arguments.
pub proof fn law_every_condition_is_told(
    opcodes: Seq<Seq<u8>>,
    arguments: Seq<Seq<Clvm>>,
    ends: Seq<Seq<u8>>,
    end: Seq<u8>,
)
    requires
        opcodes.len() == arguments.len() == ends.len(),
        forall|i: int, k: int|
            #![trigger arguments[i][k]]
            0 <= i < arguments.len() && 0 <= k < arguments[i].len() ==> arguments[i][k] is Atom
                || serialised(arguments[i][k]) is Some,
    ensures
        ({
            let put_out = list_of(
                Seq::new(
                    opcodes.len(),
                    |i: int|
                        Clvm::Pair(
                            Box::new(Clvm::Atom(opcodes[i])),
                            Box::new(list_of(arguments[i], ends[i])),
                        ),
                ),
                end,
            );
            let told = conditions_of(put_out);
            &&& told.len() == opcodes.len()
            &&& forall|i: int|
                #![trigger told[i]]
                0 <= i < opcodes.len() ==> told[i].opcode == "0x"@ + hex_of(opcodes[i])
                    && told[i].vars.len() == arguments[i].len()
            &&& forall|i: int, k: int|
                #![trigger told[i].vars[k]]
                0 <= i < opcodes.len() && 0 <= k < arguments[i].len() ==> told[i].vars[k] == "0x"@
                    + hex_of(
                    match arguments[i][k] {
                        Clvm::Atom(bytes) => bytes,
                        Clvm::Pair(_, _) => serialised(arguments[i][k])->0,
                    },
                )
        }),
    decreases opcodes.len(),
{
    let items = Seq::new(
        opcodes.len(),
        |i: int|
            Clvm::Pair(
                Box::new(Clvm::Atom(opcodes[i])),
                Box::new(list_of(arguments[i], ends[i])),
            ),
    );
    let told = conditions_of(list_of(items, end));
    if opcodes.len() > 0 {
        let rest_items = Seq::new(
            opcodes.drop_first().len(),
            |i: int|
                Clvm::Pair(
                    Box::new(Clvm::Atom(opcodes.drop_first()[i])),
                    Box::new(list_of(arguments.drop_first()[i], ends.drop_first()[i])),
                ),
        );
        assert(items.drop_first() =~= rest_items);
        assert forall|i: int, k: int|
            #![trigger arguments.drop_first()[i][k]]
            0 <= i < arguments.drop_first().len() && 0 <= k < arguments.drop_first()[i].len() implies
            arguments.drop_first()[i][k] is Atom || serialised(
            arguments.drop_first()[i][k],
        ) is Some by {
            assert(arguments[i + 1][k] == arguments.drop_first()[i][k]);
        }
        law_every_condition_is_told(
            opcodes.drop_first(),
            arguments.drop_first(),
            ends.drop_first(),
            end,
        );
        let rest = conditions_of(list_of(rest_items, end));
        assert forall|k: int| 0 <= k < arguments[0].len() implies (
        #[trigger] arguments[0][k]) is Atom || serialised(arguments[0][k]) is Some by {
        }
        law_every_argument_is_told(arguments[0], ends[0]);
        let first = condition_of(items[0])->0;
        assert(condition_of(items[0]) is Some);
        assert(first.opcode == "0x"@ + hex_of(opcodes[0]));
        assert(first.vars == arguments_of(list_of(arguments[0], ends[0])));
        assert(told =~= seq![first] + rest);
        assert forall|i: int| #![trigger told[i]] 0 <= i < opcodes.len() implies told[i].opcode
            == "0x"@ + hex_of(opcodes[i]) && told[i].vars.len() == arguments[i].len() by {
            if i > 0 {
                assert(told[i] == rest[i - 1]);
                assert(opcodes[i] == opcodes.drop_first()[i - 1]);
                assert(arguments[i] == arguments.drop_first()[i - 1]);
            }
        }
        assert forall|i: int, k: int|
            #![trigger told[i].vars[k]]
            0 <= i < opcodes.len() && 0 <= k < arguments[i].len() implies told[i].vars[k] == "0x"@
            + hex_of(
            match arguments[i][k] {
                Clvm::Atom(bytes) => bytes,
                Clvm::Pair(_, _) => serialised(arguments[i][k])->0,
            },
        ) by {
            if i > 0 {
                assert(told[i] == rest[i - 1]);
                assert(arguments[i] == arguments.drop_first()[i - 1]);
                assert(rest[i - 1].vars[k] == told[i].vars[k]);
            }
        }
    }
}

/// What has no atom for its opcode is no condition: it is left out, and changes nothing of the
/// others.
pub proof fn law_only_what_is_no_condition_is_left_out(
    before: Seq<Clvm>,
    other: Clvm,
    after: Seq<Clvm>,
    end: Seq<u8>,
)
    requires
        other matches Clvm::Pair(opcode, _) ==> *opcode is Pair,
    ensures
        conditions_of(list_of(before + seq![other] + after, end)) == conditions_of(
            list_of(before + after, end),
        ),
    decreases before.len(),
{
    if before.len() > 0 {
        let tail = before.drop_first();
        law_only_what_is_no_condition_is_left_out(tail, other, after, end);
        assert((before + seq![other] + after).drop_first() =~= tail + seq![other] + after);
        assert((before + after).drop_first() =~= tail + after);
    } else {
        assert((before + seq![other] + after).drop_first() =~= after);
        assert(before + after =~= after);
    }
}

/// What a block added stands as created at its height and unspent, and what it removed as spent at
/// its height: the coins its generator creates in order, then its rewards, and the coins its
/// generator spends in order. A block without a generator adds its rewards alone.
pub proof fn law_additions_are_new_and_removals_are_spent(
    block: FullBlock,
    height: u32,
    network: NetworkType,
    told: AdditionsAndRemovals,
)
    requires
        effects_answer(block, height, network, Ok(told)),
    ensures
        ({
            let (created, spent) = match block.transactions_generator {
                Some(generator) => generator_effects(generator@, network)->Ok_0,
                None => (Seq::<Coin>::empty(), Seq::<Coin>::empty()),
            };
            let rewards = match block.reward_claims_incorporated {
                Some(claims) => claims@,
                None => Seq::<Coin>::empty(),
            };
            let time: u64 = match block.timestamp {
                Some(timestamp) => timestamp,
                None => 0,
            };
            &&& told.additions@.len() == created.len() + rewards.len()
            &&& forall|i: int|
                0 <= i < told.additions@.len() ==> {
                    let added = (#[trigger] told.additions@[i])@;
                    let coin = if i < created.len() {
                        created[i]
                    } else {
                        rewards[i - created.len()]
                    };
                    &&& !added.spent && added.spent_block_index == 0
                    &&& added.confirmed_block_index == height && added.timestamp == time
                    &&& added.coinbase == (i >= created.len())
                    &&& added.coin.parent_coin_info == "0x"@ + hex_of(coin.parent_coin_info@)
                    &&& added.coin.puzzle_hash == "0x"@ + hex_of(coin.puzzle_hash@)
                    &&& added.coin.amount == coin.amount
                }
            &&& told.removals@.len() == spent.len()
            &&& forall|i: int|
                0 <= i < told.removals@.len() ==> {
                    let removed = (#[trigger] told.removals@[i])@;
                    &&& removed.spent && removed.spent_block_index == height
                    &&& removed.coin.parent_coin_info == "0x"@ + hex_of(spent[i].parent_coin_info@)
                    &&& removed.coin.puzzle_hash == "0x"@ + hex_of(spent[i].puzzle_hash@)
                    &&& removed.coin.amount == spent[i].amount
                    &&& removed.confirmed_block_index == 0 && !removed.coinbase
                        && removed.timestamp == 0
                }
        }),
{
    let views = records_view(told.additions@);
    assert(views.len() == told.additions@.len());
    assert(records_view(told.removals@).len() == told.removals@.len());
    assert forall|i: int| 0 <= i < told.additions@.len() implies (#[trigger] told.additions@[i])@
        == views[i] by {
    }
    assert forall|i: int| 0 <= i < told.removals@.len() implies (#[trigger] told.removals@[i])@
        == records_view(told.removals@)[i] by {
    }
}

/// A block's effects can be told exactly if it has no generator or its generator can be run.
pub proof fn law_effects_are_told_exactly_if_the_generator_runs(
    block: FullBlock,
    height: u32,
    network: NetworkType,
    answer: Result<AdditionsAndRemovals, ChiaQueryError>,
)
    requires
        effects_answer(block, height, network, answer),
    ensures
        answer is Ok <==> (block.transactions_generator matches Some(generator)
            ==> generator_effects(generator@, network) is Ok),
{
}

/// Each coin that a generator spends, and that its output holds, is told with the coin's own parts
/// and with the puzzle and the solution that the output holds for it; the others are left out, and
/// the order is the generator's.
pub proof fn law_spends_are_told_coin_by_coin(output: Clvm, coins: Seq<Coin>, coin: Coin)
    ensures
        spends_in(output, Seq::empty()).len() == 0,
        spend_in(output, coin) is None ==> spends_in(output, coins.push(coin)) == spends_in(
            output,
            coins,
        ),
        spend_in(output, coin) matches Some(spend) ==> {
            let before = spends_in(output, coins);
            let after = spends_in(output, coins.push(coin));
            let told = after.last();
            &&& after.len() == before.len() + 1 && after.drop_last() == before
            &&& told.coin.parent_coin_info == "0x"@ + hex_of(coin.parent_coin_info@)
            &&& told.coin.puzzle_hash == "0x"@ + hex_of(coin.puzzle_hash@)
            &&& told.coin.amount == coin.amount
            &&& serialised(spend.0) matches Some(bytes) ==> told.puzzle_reveal == "0x"@ + hex_of(
                bytes,
            )
            &&& serialised(spend.1) matches Some(bytes) ==> told.solution == "0x"@ + hex_of(bytes)
            &&& serialised(spend.0) is None ==> told.puzzle_reveal == "0x"@
            &&& serialised(spend.1) is None ==> told.solution == "0x"@
        },
{
    assert(coins.push(coin).drop_last() =~= coins);
    assert("0x"@ + hex_of(Seq::empty()) =~= "0x"@);
    if let Some(spend) = spend_in(output, coin) {
        assert(spends_in(output, coins.push(coin)).drop_last() =~= spends_in(output, coins));
    }
}

/// One spend that is run is told as it was handed in, with what its own puzzle puts out on its own
/// solution, and is told whenever both read as hex and the run succeeds.
pub proof fn law_one_spend_is_told_with_its_own_conditions(
    spend: SpendView,
    network: NetworkType,
    puzzle: Seq<u8>,
    solution: Seq<u8>,
)
    requires
        read_hex(spend.puzzle_reveal) == Ok::<Seq<u8>, ErrorView>(puzzle),
        read_hex(spend.solution) == Ok::<Seq<u8>, ErrorView>(solution),
    ensures
        ({
            let told = spend_told(spend, network);
            let program = parsing(fresh_arena(0), puzzle);
            let arguments = parsing(program.0, solution);
            &&& told is Ok <==> program.1 is Ok && arguments.1 is Ok && running(
                arguments.0,
                program.1->Ok_0,
                arguments.1->Ok_0,
                network,
            ).1 is Ok
            &&& told matches Ok(view) ==> view.coin_spend == spend && view.conditions
                == conditions_of(
                program_value(parsed_program(puzzle), parsed_program(solution)),
            )
        }),
{
}

/// A generator's run succeeds exactly if it is valid, reads back, has its arguments built and runs
/// once more in the same arena. It then spends the coins of the first run and puts out what the
/// second comes to. A failure names the stage it came in.
pub proof fn law_a_run_succeeds_stage_by_stage(generator: Seq<u8>, network: NetworkType)
    ensures
        ({
            let end = run_end(generator, network);
            let first = generator_run(generator, network);
            let parsed = parsing((first->0).0, generator);
            let built = building(parsed.0, Seq::empty());
            let ran = running(built.0, parsed.1->Ok_0, built.1->Ok_0, network);
            &&& end is Ok <==> first is Some && parsed.1 is Ok && built.1 is Ok && ran.1 is Ok
            &&& end matches Ok((arena, coins, output)) ==> arena == ran.0 && coins == (first->0).1
                && output == ran.1->Ok_0
            &&& first is None ==> end == Err::<
                (clvmr::Allocator, Seq<Coin>, clvmr::NodePtr),
                RunFailure,
            >(RunFailure::Invalid)
            &&& first is Some ==> (parsed.1 matches Err(text) ==> end->Err_0 == RunFailure::Later(
                "parse generator: "@ + text,
            ))
            &&& first is Some && parsed.1 is Ok ==> (built.1 matches Err(text) ==> end->Err_0
                == RunFailure::Later("setup args: "@ + text))
            &&& first is Some && parsed.1 is Ok && built.1 is Ok ==> (ran.1 matches Err(text)
                ==> end->Err_0 == RunFailure::Later("run_program: "@ + text))
        }),
{
}

/// What a generator puts out is what it comes to on the arguments of a generator that refers to no
/// other. A failure of its first run is told by its stage, any other in its own words.
pub proof fn law_failures_are_told_in_their_words(generator: Seq<u8>, text: Seq<char>, e: ErrorView)
    ensures
        generator_output(generator) == program_value(
            parsed_program(generator),
            generator_arguments(Seq::empty()),
        ),
        RunFailure::Later(text).is_told_by(e) <==> e == ErrorView::PeerConnection(text),
        RunFailure::Invalid.is_told_by(e) ==> e is PeerConnection && exists|rest: Seq<char>|
            e->PeerConnection_0 == #[trigger] ("run_block_generator2 failed: "@ + rest),
{
}

/// The spends of a block are told exactly if its generator's run succeeds, and are those of the coins
/// it spends; a block without a generator has none. So are the spends with their conditions.
pub proof fn law_spends_are_told_exactly_if_the_run_succeeds(
    block: FullBlock,
    network: NetworkType,
    spends: Result<Vec<CoinSpend>, ChiaQueryError>,
    with_conditions: Result<Vec<CoinSpendWithConditions>, ChiaQueryError>,
)
    requires
        spends_answer(block, network, spends),
        conditioned_answer(block, network, with_conditions),
    ensures
        block.transactions_generator is None ==> spends is Ok && spends->Ok_0@.len() == 0
            && with_conditions is Ok && with_conditions->Ok_0@.len() == 0,
        block.transactions_generator matches Some(generator) ==> {
            let end = run_end(generator@, network);
            &&& spends is Ok <==> end is Ok
            &&& with_conditions is Ok <==> end is Ok
            &&& spends is Ok ==> spends_view(spends->Ok_0@) == spends_in(
                program_value(parsed_program(generator@), generator_arguments(Seq::empty())),
                (generator_run(generator@, network)->0).1,
            )
            &&& end matches Err(failure) ==> failure.is_told_by(spends->Err_0@)
                && failure.is_told_by(with_conditions->Err_0@)
        },
{
    if block.transactions_generator is None {
        assert(spends_view(spends->Ok_0@).len() == spends->Ok_0@.len());
        assert(conditioned_view(with_conditions->Ok_0@).len() == with_conditions->Ok_0@.len());
    }
}

/// The puzzles of a block are run coin by coin, each in the arena the ones before it left: a coin that
/// the output holds is told with what its own puzzle puts out on its own solution there, or without
/// conditions where that run fails; a coin the output does not hold is left out, and runs nothing.
pub proof fn law_puzzles_are_run_coin_by_coin(
    arena: clvmr::Allocator,
    output: clvmr::NodePtr,
    tree: Clvm,
    coins: Seq<Coin>,
    coin: Coin,
    network: NetworkType,
)
    ensures
        ({
            let reached = arena_after(arena, output, coins, network);
            let before = conditioned_in(arena, output, tree, coins, network);
            let after = conditioned_in(arena, output, tree, coins.push(coin), network);
            let found = spend_nodes(reached, output, coin);
            let ran = running(reached, (found->0).0, (found->0).1, network);
            &&& arena_after(arena, output, Seq::empty(), network) == arena
            &&& conditioned_in(arena, output, tree, Seq::empty(), network).len() == 0
            &&& found is Some ==> arena_after(arena, output, coins.push(coin), network) == ran.0
            &&& found is None ==> arena_after(arena, output, coins.push(coin), network) == reached
            &&& spend_in(tree, coin) is None ==> after == before
            &&& spend_in(tree, coin) matches Some((puzzle, solution)) ==> {
                let told = after.last();
                &&& after.len() == before.len() + 1 && after.drop_last() == before
                &&& told.coin_spend.coin.parent_coin_info == "0x"@ + hex_of(coin.parent_coin_info@)
                &&& told.coin_spend.coin.puzzle_hash == "0x"@ + hex_of(coin.puzzle_hash@)
                &&& told.coin_spend.coin.amount == coin.amount
                &&& found is Some && ran.1 is Ok ==> told.conditions == conditions_of(
                    program_value(puzzle, solution),
                )
                &&& found is None || ran.1 is Err ==> told.conditions.len() == 0
            }
        }),
{
    assert(coins.push(coin).drop_last() =~= coins);
    if let Some(spend) = spend_in(tree, coin) {
        assert(conditioned_in(arena, output, tree, coins.push(coin), network).drop_last()
            =~= conditioned_in(arena, output, tree, coins, network));
    }
}

/// One spend that cannot be told says why: a text that is no hex, or the stage that failed.
pub proof fn law_one_spend_says_why_it_cannot_be_told(
    spend: SpendView,
    network: NetworkType,
    puzzle: Seq<u8>,
    solution: Seq<u8>,
)
    ensures
        ({
            let told = spend_told(spend, network);
            let read = read_hex(spend.puzzle_reveal) == Ok::<Seq<u8>, ErrorView>(puzzle)
                && read_hex(spend.solution) == Ok::<Seq<u8>, ErrorView>(solution);
            let program = parsing(fresh_arena(0), puzzle);
            let arguments = parsing(program.0, solution);
            let ran = running(arguments.0, program.1->Ok_0, arguments.1->Ok_0, network);
            &&& read_hex(spend.puzzle_reveal) matches Err(e) ==> told is Err && told->Err_0 == e
            &&& read_hex(spend.puzzle_reveal) is Ok ==> (read_hex(spend.solution) matches Err(e)
                ==> told is Err && told->Err_0 == e)
            &&& read ==> (program.1 matches Err(text) ==> told is Err && told->Err_0
                == ErrorView::PeerConnection("parse puzzle: "@ + text))
            &&& read && program.1 is Ok ==> (arguments.1 matches Err(text) ==> told is Err
                && told->Err_0 == ErrorView::PeerConnection("parse solution: "@ + text))
            &&& read && program.1 is Ok && arguments.1 is Ok ==> (ran.1 matches Err(text)
                ==> told is Err && told->Err_0 == ErrorView::PeerConnection(
                "run_program: "@ + text,
            ))
        }),
{
}

/// What is read out of a puzzle's output holds every condition in it, in order, with the bytes of its
/// opcode and every argument: an atom by its bytes, a pair by its serialisation.
pub proof fn law_every_condition_is_read_out(
    arena: clvmr::Allocator,
    output: clvmr::NodePtr,
    conditions: Vec<Condition>,
    opcodes: Seq<Seq<u8>>,
    arguments: Seq<Seq<Clvm>>,
    ends: Seq<Seq<u8>>,
    end: Seq<u8>,
)
    requires
        call_ensures(parse_conditions_public, (&arena, output), conditions),
        opcodes.len() == arguments.len() == ends.len(),
        forall|i: int, k: int|
            #![trigger arguments[i][k]]
            0 <= i < arguments.len() && 0 <= k < arguments[i].len() ==> arguments[i][k] is Atom
                || serialised(arguments[i][k]) is Some,
        nodes(arena)[output] == list_of(
            Seq::new(
                opcodes.len(),
                |i: int|
                    Clvm::Pair(
                        Box::new(Clvm::Atom(opcodes[i])),
                        Box::new(list_of(arguments[i], ends[i])),
                    ),
            ),
            end,
        ),
    ensures
        conditions@.len() == opcodes.len(),
        forall|i: int|
            0 <= i < opcodes.len() ==> (#[trigger] conditions@[i]).opcode@ == "0x"@ + hex_of(
                opcodes[i],
            ) && conditions@[i].vars@.len() == arguments[i].len(),
        forall|i: int, k: int|
            #![trigger conditions@[i].vars@[k]]
            0 <= i < opcodes.len() && 0 <= k < arguments[i].len() ==> conditions@[i].vars@[k]@
                == "0x"@ + hex_of(
                match arguments[i][k] {
                    Clvm::Atom(bytes) => bytes,
                    Clvm::Pair(_, _) => serialised(arguments[i][k])->0,
                },
            ),
{
    law_every_condition_is_told(opcodes, arguments, ends, end);
    let told = conditions_view(conditions@);
    assert(told.len() == conditions@.len());
    assert forall|i: int| 0 <= i < opcodes.len() implies (#[trigger] conditions@[i]).opcode@ == "0x"@
        + hex_of(opcodes[i]) && conditions@[i].vars@.len() == arguments[i].len() by {
        assert(told[i] == conditions@[i]@);
        assert(texts_view(conditions@[i].vars@).len() == conditions@[i].vars@.len());
    }
    assert forall|i: int, k: int|
        #![trigger conditions@[i].vars@[k]]
        0 <= i < opcodes.len() && 0 <= k < arguments[i].len() implies conditions@[i].vars@[k]@ == "0x"@
        + hex_of(
        match arguments[i][k] {
            Clvm::Atom(bytes) => bytes,
            Clvm::Pair(_, _) => serialised(arguments[i][k])->0,
        },
    ) by {
        assert(told[i] == conditions@[i]@);
        assert(told[i].vars[k] == conditions@[i].vars@[k]@);
    }
}

/// The effects of a generator are told with the block's rewards after them, and a generator that
/// cannot be run is told in its own words.
pub proof fn law_effects_come_back_with_the_rewards(
    block: FullBlock,
    height: u32,
    effects: Result<(Vec<Coin>, Vec<Coin>), String>,
    response: Result<AdditionsAndRemovals, ChiaQueryError>,
)
    requires
        call_ensures(effects_to_response, (&block, height, effects), response),
    ensures
        response is Ok <==> effects is Ok,
        effects matches Err(text) ==> response->Err_0@ == ErrorView::PeerConnection(
            "CLVM execution failed: "@ + text@,
        ),
        effects matches Ok((added, removed)) ==> {
            let told = response->Ok_0;
            let rewards = match block.reward_claims_incorporated {
                Some(claims) => claims@.len(),
                None => 0,
            };
            &&& told.additions@.len() == added@.len() + rewards
            &&& told.removals@.len() == removed@.len()
            &&& forall|i: int|
                0 <= i < told.additions@.len() ==> (#[trigger] told.additions@[i]).coinbase == (i
                    >= added@.len()) && !told.additions@[i].spent
                    && told.additions@[i].confirmed_block_index == height
            &&& forall|i: int|
                0 <= i < told.removals@.len() ==> (#[trigger] told.removals@[i]).spent
                    && told.removals@[i].spent_block_index == height
        },
{
    if let Ok((added, removed)) = effects {
        let told = response->Ok_0;
        let additions = records_view(told.additions@);
        let removals = records_view(told.removals@);
        assert(additions.len() == told.additions@.len());
        assert(removals.len() == told.removals@.len());
        assert forall|i: int| 0 <= i < told.additions@.len() implies (
        #[trigger] told.additions@[i]).coinbase == (i >= added@.len())
            && !told.additions@[i].spent && told.additions@[i].confirmed_block_index == height by {
            assert(additions[i] == told.additions@[i]@);
        }
        assert forall|i: int| 0 <= i < told.removals@.len() implies (
        #[trigger] told.removals@[i]).spent && told.removals@[i].spent_block_index == height by {
            assert(removals[i] == told.removals@[i]@);
        }
    }
}

} // verus!
