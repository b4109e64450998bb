//! The programs a block carries, and the arena they are run in.

use std::collections::HashSet;

use chia::consensus::additions_and_removals::additions_and_removals;
use chia::consensus::allocator::make_allocator;
use chia::consensus::conditions::SpendConditions;
use chia::consensus::flags::DONT_VALIDATE_SIGNATURE;
use chia::consensus::run_block_generator::run_block_generator2;
use chia_bls::Signature;
use chia_wallet_sdk::types::{MAINNET_CONSTANTS, TESTNET11_CONSTANTS};
use clvmr::chia_dialect::ChiaDialect;
use vstd::prelude::*;

use crate::protocol::{Bytes32, Coin};
use crate::NetworkType;

verus! {

/// The arena CLVM nodes live in.
#[verifier::external_type_specification]
#[verifier::external_body]
pub struct ExAllocator(clvmr::Allocator);

/// A handle to a node of an arena.
#[verifier::external_type_specification]
#[verifier::external_body]
pub struct ExNodePtr(clvmr::NodePtr);

/// What a node stands for: bytes, or a pair of nodes.
#[verifier::ext_equal]
pub enum Clvm {
    Atom(Seq<u8>),
    Pair(Box<Clvm>, Box<Clvm>),
}

/// What each node of an arena stands for.
pub uninterp spec fn nodes(arena: clvmr::Allocator) -> Map<clvmr::NodePtr, Clvm>;

/// Whether `node` lives in `arena` and stands for `value`.
pub open spec fn stands_for(arena: clvmr::Allocator, node: clvmr::NodePtr, value: Clvm) -> bool {
    nodes(arena).dom().contains(node) && nodes(arena)[node] == value
}

/// What a program run on some arguments comes to.
pub uninterp spec fn program_value(program: Clvm, arguments: Clvm) -> Clvm;

/// The tree a serialised program stands for.
pub uninterp spec fn parsed_program(program: Seq<u8>) -> Clvm;

/// The arguments a block generator is run on, for the generators it refers to.
pub uninterp spec fn generator_arguments(block_refs: Seq<Seq<u8>>) -> Clvm;

/// A tree written out as bytes, unless it is too large to be.
pub uninterp spec fn serialised(tree: Clvm) -> Option<Seq<u8>>;

/// The puzzle and the solution that a generator's output holds for a coin, if it holds any.
pub uninterp spec fn spend_in(output: Clvm, coin: Coin) -> Option<(Clvm, Clvm)>;

/// An arena that nothing has been put into, made under some flags.
pub uninterp spec fn fresh_arena(flags: u32) -> clvmr::Allocator;

/// What reading a serialised program into an arena leaves: the arena, and the program's node where
/// it can be read and there is room for it, or else the text of the error.
pub uninterp spec fn parsing(arena: clvmr::Allocator, program: Seq<u8>) -> (
    clvmr::Allocator,
    Result<clvmr::NodePtr, Seq<char>>,
);

/// What building the arguments of a block generator leaves: the arena, and their node where there
/// is room for them, or else the text of the error.
pub uninterp spec fn building(arena: clvmr::Allocator, block_refs: Seq<Seq<u8>>) -> (
    clvmr::Allocator,
    Result<clvmr::NodePtr, Seq<char>>,
);

/// What running a program under a network's cost limit leaves: the arena, and the node of what it
/// comes to where cost and room suffice, or else the text of the error.
pub uninterp spec fn running(
    arena: clvmr::Allocator,
    program: clvmr::NodePtr,
    arguments: clvmr::NodePtr,
    network: NetworkType,
) -> (clvmr::Allocator, Result<clvmr::NodePtr, Seq<char>>);

/// The nodes of the puzzle and the solution that a generator's output holds for a coin.
pub uninterp spec fn spend_nodes(
    arena: clvmr::Allocator,
    output: clvmr::NodePtr,
    coin: Coin,
) -> Option<(clvmr::NodePtr, clvmr::NodePtr)>;

/// What running a block generator in a fresh arena leaves, where it is valid: the arena, and the
/// coins it spends, in order.
pub uninterp spec fn generator_run(generator: Seq<u8>, network: NetworkType) -> Option<
    (clvmr::Allocator, Seq<Coin>),
>;

/// The coins a block generator creates and spends, in order, or the text of the error it ends in.
pub uninterp spec fn generator_effects(generator: Seq<u8>, network: NetworkType) -> Result<
    (Seq<Coin>, Seq<Coin>),
    Seq<char>,
>;

/// Calls `chia_consensus::allocator::make_allocator`, which makes an arena with the room that the
/// flags allow. The claim is that the arena is a function of the flags.
#[verifier::external_body]
pub(crate) fn new_arena(flags: u32) -> (arena: clvmr::Allocator)
    ensures
        arena == fresh_arena(flags),
{
    make_allocator(flags)
}

/// Calls `clvmr::Allocator::sexp`, which tells an atom from a pair.
#[verifier::external_body]
pub(crate) fn is_atom(arena: &clvmr::Allocator, node: clvmr::NodePtr) -> (atom: bool)
    requires
        nodes(*arena).dom().contains(node),
    ensures
        atom == (nodes(*arena)[node] is Atom),
{
    match arena.sexp(node) {
        clvmr::SExp::Atom => true,
        clvmr::SExp::Pair(_, _) => false,
    }
}

/// Calls `clvmr::Allocator::atom`, which returns the bytes of an atom and panics on a pair.
#[verifier::external_body]
pub(crate) fn atom(arena: &clvmr::Allocator, node: clvmr::NodePtr) -> (bytes: Vec<u8>)
    requires
        nodes(*arena).dom().contains(node),
        nodes(*arena)[node] is Atom,
    ensures
        nodes(*arena)[node] == Clvm::Atom(bytes@),
{
    arena.atom(node).as_ref().to_vec()
}

/// Calls `chia_consensus::validation_error::next`, which takes a list apart: a pair is an item and
/// the rest, the empty atom is the end, and any other atom is an error.
#[verifier::external_body]
pub(crate) fn next(arena: &clvmr::Allocator, list: clvmr::NodePtr) -> (item: Result<
    Option<(clvmr::NodePtr, clvmr::NodePtr)>,
    (),
>)
    requires
        nodes(*arena).dom().contains(list),
    ensures
        match nodes(*arena)[list] {
            Clvm::Pair(first, rest) => item matches Ok(Some(parts)) && stands_for(
                *arena,
                parts.0,
                *first,
            ) && stands_for(*arena, parts.1, *rest),
            Clvm::Atom(bytes) => if bytes.len() == 0 {
                item matches Ok(None)
            } else {
                item is Err
            },
        },
{
    chia::consensus::validation_error::next(arena, list).map_err(|_| ())
}

/// Calls `chia_consensus::validation_error::first`, which returns the left half of a pair and
/// fails on an atom.
#[verifier::external_body]
pub(crate) fn first(arena: &clvmr::Allocator, node: clvmr::NodePtr) -> (left: Option<
    clvmr::NodePtr,
>)
    requires
        nodes(*arena).dom().contains(node),
    ensures
        match nodes(*arena)[node] {
            Clvm::Pair(first, _) => left matches Some(l) && stands_for(*arena, l, *first),
            Clvm::Atom(_) => left is None,
        },
{
    chia::consensus::validation_error::first(arena, node).ok()
}

/// Calls `chia_consensus::validation_error::rest`, which returns the right half of a pair and
/// fails on an atom.
#[verifier::external_body]
pub(crate) fn rest(arena: &clvmr::Allocator, node: clvmr::NodePtr) -> (right: Option<
    clvmr::NodePtr,
>)
    requires
        nodes(*arena).dom().contains(node),
    ensures
        match nodes(*arena)[node] {
            Clvm::Pair(_, rest) => right matches Some(r) && stands_for(*arena, r, *rest),
            Clvm::Atom(_) => right is None,
        },
{
    chia::consensus::validation_error::rest(arena, node).ok()
}

/// Calls `clvmr::serde::node_to_bytes`, which writes a tree out as bytes and fails on one that
/// takes too many. The claim is that the outcome is a function of the tree.
#[verifier::external_body]
pub(crate) fn node_to_bytes(arena: &clvmr::Allocator, node: clvmr::NodePtr) -> (bytes: Option<
    Vec<u8>,
>)
    requires
        nodes(*arena).dom().contains(node),
    ensures
        match bytes {
            Some(b) => serialised(nodes(*arena)[node]) == Some(b@),
            None => serialised(nodes(*arena)[node]) is None,
        },
{
    clvmr::serde::node_to_bytes(arena, node).ok()
}

/// Calls `clvmr::serde::node_from_bytes_backrefs_record`, which reads a serialised program into
/// the arena and notes the nodes it refers back to. The claim is that the tree read is a function
/// of the bytes, that where it is read or the error's text, and the arena that leaves, are functions
/// of the arena and the bytes, and that nodes already there stay as they are.
#[verifier::external_body]
pub(crate) fn parse_program(arena: &mut clvmr::Allocator, program: &[u8]) -> (parsed: Result<
    (clvmr::NodePtr, HashSet<clvmr::NodePtr>),
    String,
>)
    ensures
        nodes(*old(arena)).submap_of(nodes(*final(arena))),
        *final(arena) == parsing(*old(arena), program@).0,
        match parsed {
            Ok(p) => parsing(*old(arena), program@).1 == Ok::<clvmr::NodePtr, Seq<char>>(p.0)
                && stands_for(*final(arena), p.0, parsed_program(program@)),
            Err(e) => parsing(*old(arena), program@).1 == Err::<clvmr::NodePtr, Seq<char>>(e@),
        },
{
    clvmr::serde::node_from_bytes_backrefs_record(arena, program).map_err(|e| format!("{e:?}"))
}

/// The bytes of each of `block_refs`, in order.
pub open spec fn refs_view(block_refs: Seq<Vec<u8>>) -> Seq<Seq<u8>> {
    block_refs.map_values(|r: Vec<u8>| r@)
}

/// Calls `chia_consensus::run_block_generator::setup_generator_args`, which builds the arguments
/// of a block generator in the arena. The claim is that they are a function of the generators
/// referred to, that where they are built or the error's text, and the arena that leaves, are
/// functions of the arena and those generators, and that nodes already there stay as they are.
#[verifier::external_body]
pub(crate) fn setup_arguments(arena: &mut clvmr::Allocator, block_refs: &Vec<Vec<u8>>) -> (
    arguments: Result<clvmr::NodePtr, String>)
    ensures
        nodes(*old(arena)).submap_of(nodes(*final(arena))),
        *final(arena) == building(*old(arena), refs_view(block_refs@)).0,
        match arguments {
            Ok(a) => building(*old(arena), refs_view(block_refs@)).1 == Ok::<
                clvmr::NodePtr,
                Seq<char>,
            >(a) && stands_for(*final(arena), a, generator_arguments(refs_view(block_refs@))),
            Err(e) => building(*old(arena), refs_view(block_refs@)).1 == Err::<
                clvmr::NodePtr,
                Seq<char>,
            >(e@),
        },
{
    chia::consensus::run_block_generator::setup_generator_args(arena, block_refs).map_err(
        |e| format!("{e:?}"),
    )
}

/// Calls `clvmr::run_program::run_program` with the network's cost limit, which runs a program on
/// its arguments. The claim is that what it comes to, where it comes to anything, is a function of
/// the two, that where it stands or the error's text, and the arena that leaves, are functions of
/// the arena, the two nodes and the network, and that nodes already there stay as they are.
#[verifier::external_body]
pub(crate) fn run_program(
    arena: &mut clvmr::Allocator,
    program: clvmr::NodePtr,
    arguments: clvmr::NodePtr,
    network: NetworkType,
) -> (value: Result<clvmr::NodePtr, String>)
    requires
        nodes(*old(arena)).dom().contains(program),
        nodes(*old(arena)).dom().contains(arguments),
    ensures
        nodes(*old(arena)).submap_of(nodes(*final(arena))),
        *final(arena) == running(*old(arena), program, arguments, network).0,
        match value {
            Ok(v) => running(*old(arena), program, arguments, network).1 == Ok::<
                clvmr::NodePtr,
                Seq<char>,
            >(v) && stands_for(
                *final(arena),
                v,
                program_value(nodes(*old(arena))[program], nodes(*old(arena))[arguments]),
            ),
            Err(e) => running(*old(arena), program, arguments, network).1 == Err::<
                clvmr::NodePtr,
                Seq<char>,
            >(e@),
        },
{
    let constants = match network {
        NetworkType::Mainnet => &*MAINNET_CONSTANTS,
        NetworkType::Testnet11 => &*TESTNET11_CONSTANTS,
    };
    let dialect = ChiaDialect::new(DONT_VALIDATE_SIGNATURE);
    let cost = constants.max_block_cost_clvm;
    clvmr::run_program::run_program(arena, &dialect, program, arguments, cost)
        .map(|reduction| reduction.1)
        .map_err(|e| format!("{e:?}"))
}

/// Calls `chia_consensus::get_puzzle_and_solution::get_puzzle_and_solution_for_coin`, which looks
/// a coin up in a generator's output. The claim is that the trees found are a function of the
/// output's tree and the coin, and their nodes a function of the arena, the output's node and the
/// coin; the nodes referred back to only save work.
#[verifier::external_body]
pub(crate) fn find_spend(
    arena: &clvmr::Allocator,
    output: clvmr::NodePtr,
    backrefs: &HashSet<clvmr::NodePtr>,
    coin: &Coin,
) -> (found: Option<(clvmr::NodePtr, clvmr::NodePtr)>)
    requires
        nodes(*arena).dom().contains(output),
    ensures
        found == spend_nodes(*arena, output, *coin),
        match found {
            Some(f) => spend_in(nodes(*arena)[output], *coin) matches Some(spend) && stands_for(
                *arena,
                f.0,
                spend.0,
            ) && stands_for(*arena, f.1, spend.1),
            None => spend_in(nodes(*arena)[output], *coin) is None,
        },
{
    let sought = chia_protocol::Coin::new(
        chia_protocol::Bytes32::new(coin.parent_coin_info.bytes),
        chia_protocol::Bytes32::new(coin.puzzle_hash.bytes),
        coin.amount,
    );
    chia::consensus::get_puzzle_and_solution::get_puzzle_and_solution_for_coin(
        arena,
        output,
        backrefs,
        &sought,
    ).ok()
}

/// Calls `chia_consensus::run_block_generator::run_block_generator2` in a fresh arena, without
/// checking signatures, which runs a block generator and every puzzle it spends. The claim is that
/// whether it is valid, the coins it spends and the arena that leaves are functions of the generator
/// and the network. An error's text is not stated: it tells one assertion of possibly several that
/// failed, and which one can differ between two runs.
#[verifier::external_body]
pub(crate) fn run_generator(generator: &[u8], network: NetworkType) -> (run: Result<
    (clvmr::Allocator, Vec<Coin>),
    String,
>)
    requires
        generator@.len() <= u32::MAX,
    ensures
        match run {
            Ok(r) => generator_run(generator@, network) == Some((r.0, r.1@)),
            Err(_) => generator_run(generator@, network) is None,
        },
{
    let constants = match network {
        NetworkType::Mainnet => &*MAINNET_CONSTANTS,
        NetworkType::Testnet11 => &*TESTNET11_CONSTANTS,
    };
    let (flags, refs, unsigned) = (DONT_VALIDATE_SIGNATURE, [generator; 0], Signature::default());
    let mut a = make_allocator(flags);
    let cost = constants.max_block_cost_clvm;
    let run = run_block_generator2(&mut a, generator, refs, cost, flags, &unsigned, None, constants)
        .map_err(|e| format!("{e:?}"))?;
    let bytes = |node| Bytes32 { bytes: a.atom(node).as_ref().try_into().unwrap() };
    let coin = |s: &SpendConditions| Coin {
        parent_coin_info: bytes(s.parent_id), puzzle_hash: bytes(s.puzzle_hash), amount: s.coin_amount,
    };
    let coins = run.spends.iter().map(coin).collect();
    Ok((a, coins))
}

/// Calls `chia_consensus::additions_and_removals::additions_and_removals`, without checking
/// signatures, which runs a block generator and lists the coins it creates and spends. The claim
/// is that the lists, or the error's text, are a function of the generator and the network.
#[verifier::external_body]
pub(crate) fn list_effects(generator: &[u8], network: NetworkType) -> (effects: Result<
    (Vec<Coin>, Vec<Coin>),
    String,
>)
    ensures
        match effects {
            Ok(e) => generator_effects(generator@, network) == Ok::<
                (Seq<Coin>, Seq<Coin>),
                Seq<char>,
            >((e.0@, e.1@)),
            Err(e) => generator_effects(generator@, network) == Err::<
                (Seq<Coin>, Seq<Coin>),
                Seq<char>,
            >(e@),
        },
{
    let constants = match network {
        NetworkType::Mainnet => &*MAINNET_CONSTANTS,
        NetworkType::Testnet11 => &*TESTNET11_CONSTANTS,
    };
    let coin = |c: &chia_protocol::Coin| Coin {
        parent_coin_info: Bytes32 { bytes: c.parent_coin_info.to_bytes() },
        puzzle_hash: Bytes32 { bytes: c.puzzle_hash.to_bytes() },
        amount: c.amount,
    };
    additions_and_removals(generator, [generator; 0], DONT_VALIDATE_SIGNATURE, constants)
        .map(|(new, old)| (new.iter().map(|n| coin(&n.0)).collect(), old.iter().map(coin).collect()))
        .map_err(|e| format!("{e:?}"))
}

} // verus!
