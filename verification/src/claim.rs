//! What a record says about the chain, as a text two sources can be compared on.
//!
//! A coin's id covers its parent, puzzle hash and amount and nothing else. The heights are what a
//! read is made for, and they are only as good as the word of whoever sent them, so they are part
//! of the claim.

use vstd::prelude::*;

use crate::text::{decimal, decimal_text, digit};
use crate::types::{BlockRecord, Coin, CoinRecord, CoinSpend, CoinView, RecordView, SpendView};

verus! {

/// What a coin claims to be.
pub open spec fn coin_claim(coin: CoinView) -> Seq<char> {
    coin.parent_coin_info + "/"@ + coin.puzzle_hash + "/"@ + decimal(coin.amount as nat)
}

/// What a record claims of its coin.
pub open spec fn record_claim(record: RecordView) -> Seq<char> {
    coin_claim(record.coin) + " confirmed "@ + decimal(record.confirmed_block_index as nat)
        + " spent "@ + decimal(record.spent_block_index as nat)
}

/// What a spend claims to have run.
pub open spec fn spend_claim(spend: SpendView) -> Seq<char> {
    coin_claim(spend.coin) + " puzzle "@ + spend.puzzle_reveal + " solution "@ + spend.solution
}

/// What a block record claims of its block.
pub open spec fn block_claim(block: BlockRecord) -> Seq<char> {
    "height "@ + decimal(block.height as nat) + " header "@ + block.header_hash@ + " timestamp "@
        + match block.timestamp {
        Some(timestamp) => decimal(timestamp as nat),
        None => "none"@,
    }
}

/// A value that two sources can be compared on.
pub trait ChainClaim {
    /// What the value claims of the chain.
    spec fn claim(&self) -> Seq<char>;

    /// What the value claims of the chain.
    fn chain_claim(&self) -> (claim: String)
        ensures
            claim@ == self.claim(),
    ;
}

impl ChainClaim for String {
    /// A text claims what it says.
    open spec fn claim(&self) -> Seq<char> {
        self@
    }

    fn chain_claim(&self) -> (claim: String) {
        self.clone()
    }
}

impl ChainClaim for Coin {
    /// The coin as part of a claim.
    open spec fn claim(&self) -> Seq<char> {
        coin_claim(self@)
    }

    fn chain_claim(&self) -> (claim: String) {
        let amount = decimal_text(self.amount);
        self.parent_coin_info.clone().concat("/").concat(self.puzzle_hash.as_str()).concat(
            "/",
        ).concat(amount.as_str())
    }
}

impl ChainClaim for CoinRecord {
    /// The coin and the heights it was created and spent at.
    open spec fn claim(&self) -> Seq<char> {
        record_claim(self@)
    }

    fn chain_claim(&self) -> (claim: String) {
        let confirmed = decimal_text(self.confirmed_block_index as u64);
        let spent = decimal_text(self.spent_block_index as u64);
        self.coin.chain_claim().concat(" confirmed ").concat(confirmed.as_str()).concat(
            " spent ",
        ).concat(spent.as_str())
    }
}

impl ChainClaim for CoinSpend {
    /// The coin, the puzzle and the solution.
    open spec fn claim(&self) -> Seq<char> {
        spend_claim(self@)
    }

    fn chain_claim(&self) -> (claim: String) {
        self.coin.chain_claim().concat(" puzzle ").concat(self.puzzle_reveal.as_str()).concat(
            " solution ",
        ).concat(self.solution.as_str())
    }
}

impl ChainClaim for BlockRecord {
    /// The height, the header hash and the timestamp.
    open spec fn claim(&self) -> Seq<char> {
        block_claim(*self)
    }

    fn chain_claim(&self) -> (claim: String) {
        let height = decimal_text(self.height as u64);
        let timestamp = match self.timestamp {
            Some(timestamp) => decimal_text(timestamp),
            None => String::from_str("none"),
        };
        String::from_str("height ").concat(height.as_str()).concat(" header ").concat(
            self.header_hash.as_str(),
        ).concat(" timestamp ").concat(timestamp.as_str())
    }
}

/// Whether every character of `text` is a decimal digit.
spec fn all_digits(text: Seq<char>) -> bool {
    forall|i: int| 0 <= i < text.len() ==> '0' <= #[trigger] text[i] <= '9'
}

proof fn lemma_decimal_digits(n: nat)
    ensures
        all_digits(decimal(n)),
        decimal(n).len() > 0,
    decreases n,
{
    if n >= 10 {
        lemma_decimal_digits(n / 10);
    }
}

proof fn lemma_decimal_injective(m: nat, n: nat)
    requires
        decimal(m) == decimal(n),
    ensures
        m == n,
    decreases m,
{
    lemma_decimal_digits(m / 10);
    lemma_decimal_digits(n / 10);
    assert(decimal(m).last() == digit(m % 10));
    assert(decimal(n).last() == digit(n % 10));
    if m >= 10 && n >= 10 {
        assert(decimal(m).drop_last() =~= decimal(m / 10));
        assert(decimal(n).drop_last() =~= decimal(n / 10));
        lemma_decimal_injective(m / 10, n / 10);
    } else if m >= 10 {
        assert(decimal(m).len() == decimal(m / 10).len() + 1);
    } else if n >= 10 {
        assert(decimal(n).len() == decimal(n / 10).len() + 1);
    }
}

/// Two texts that start with digits and go on with the same separator split in the same place.
proof fn lemma_split(a: Seq<char>, b: Seq<char>, separator: Seq<char>, x: Seq<char>, y: Seq<char>)
    requires
        all_digits(a),
        all_digits(b),
        separator.len() > 0,
        separator[0] == ' ',
        a + separator + x == b + separator + y,
    ensures
        a == b,
        x == y,
{
    let left = a + separator + x;
    let right = b + separator + y;
    if a.len() < b.len() {
        assert(left[a.len() as int] == ' ');
        assert(right[a.len() as int] == b[a.len() as int]);
        assert(false);
    }
    if b.len() < a.len() {
        assert(right[b.len() as int] == ' ');
        assert(left[b.len() as int] == a[b.len() as int]);
        assert(false);
    }
    assert(a =~= left.take(a.len() as int));
    assert(b =~= right.take(b.len() as int));
    let n = (a.len() + separator.len()) as int;
    assert(x =~= left.skip(n));
    assert(y =~= right.skip(n));
}

/// Two records of one coin make the same claim only if they agree on both heights, so a
/// fabricated height is a different claim.
pub proof fn law_claim_fixes_the_heights(a: RecordView, b: RecordView)
    requires
        a.coin == b.coin,
        record_claim(a) == record_claim(b),
    ensures
        a.confirmed_block_index == b.confirmed_block_index,
        a.spent_block_index == b.spent_block_index,
{
    let start = coin_claim(a.coin) + " confirmed "@;
    let a_confirmed = decimal(a.confirmed_block_index as nat);
    let b_confirmed = decimal(b.confirmed_block_index as nat);
    let a_spent = decimal(a.spent_block_index as nat);
    let b_spent = decimal(b.spent_block_index as nat);
    let n = start.len() as int;
    assert(record_claim(a).skip(n) =~= a_confirmed + " spent "@ + a_spent);
    assert(record_claim(b).skip(n) =~= b_confirmed + " spent "@ + b_spent);
    reveal_strlit(" spent ");
    lemma_decimal_digits(a.confirmed_block_index as nat);
    lemma_decimal_digits(b.confirmed_block_index as nat);
    lemma_split(a_confirmed, b_confirmed, " spent "@, a_spent, b_spent);
    lemma_decimal_injective(a.confirmed_block_index as nat, b.confirmed_block_index as nat);
    lemma_decimal_injective(a.spent_block_index as nat, b.spent_block_index as nat);
}

/// Whether `text` holds neither a slash nor a space, as no hex does.
pub open spec fn is_one_word(text: Seq<char>) -> bool {
    forall|i: int| 0 <= i < text.len() ==> #[trigger] text[i] != '/' && text[i] != ' '
}

/// Two texts that start with words without the separator and go on with it split in the same place.
proof fn lemma_split_words(
    a: Seq<char>,
    b: Seq<char>,
    separator: Seq<char>,
    x: Seq<char>,
    y: Seq<char>,
)
    requires
        separator.len() > 0,
        separator[0] == '/' || separator[0] == ' ',
        is_one_word(a),
        is_one_word(b),
        a + separator + x == b + separator + y,
    ensures
        a == b,
        x == y,
{
    let left = a + separator + x;
    let right = b + separator + y;
    if a.len() < b.len() {
        assert(left[a.len() as int] == separator[0]);
        assert(right[a.len() as int] == b[a.len() as int]);
        assert(false);
    }
    if b.len() < a.len() {
        assert(right[b.len() as int] == separator[0]);
        assert(left[b.len() as int] == a[b.len() as int]);
        assert(false);
    }
    assert(a =~= left.take(a.len() as int));
    assert(b =~= right.take(b.len() as int));
    let n = (a.len() + separator.len()) as int;
    assert(x =~= left.skip(n));
    assert(y =~= right.skip(n));
}

/// A coin's part of a claim, and where it ends.
proof fn lemma_coin_splits(a: CoinView, b: CoinView, separator: Seq<char>, x: Seq<char>, y: Seq<char>)
    requires
        is_one_word(a.parent_coin_info),
        is_one_word(a.puzzle_hash),
        is_one_word(b.parent_coin_info),
        is_one_word(b.puzzle_hash),
        separator.len() > 0,
        separator[0] == ' ',
        coin_claim(a) + separator + x == coin_claim(b) + separator + y,
    ensures
        a == b,
        x == y,
{
    reveal_strlit("/");
    let a_amount = decimal(a.amount as nat);
    let b_amount = decimal(b.amount as nat);
    let a_rest = a_amount + separator + x;
    let b_rest = b_amount + separator + y;
    let a_tail = a.puzzle_hash + "/"@ + a_rest;
    let b_tail = b.puzzle_hash + "/"@ + b_rest;
    assert(coin_claim(a) + separator + x =~= a.parent_coin_info + "/"@ + a_tail);
    assert(coin_claim(b) + separator + y =~= b.parent_coin_info + "/"@ + b_tail);
    lemma_split_words(a.parent_coin_info, b.parent_coin_info, "/"@, a_tail, b_tail);
    lemma_split_words(a.puzzle_hash, b.puzzle_hash, "/"@, a_rest, b_rest);
    lemma_decimal_digits(a.amount as nat);
    lemma_decimal_digits(b.amount as nat);
    lemma_split(a_amount, b_amount, separator, x, y);
    lemma_decimal_injective(a.amount as nat, b.amount as nat);
}

/// Two records make the same claim only if they are of the same coin and agree on both heights.
pub proof fn law_record_claim_fixes_the_record(a: RecordView, b: RecordView)
    requires
        is_one_word(a.coin.parent_coin_info),
        is_one_word(a.coin.puzzle_hash),
        is_one_word(b.coin.parent_coin_info),
        is_one_word(b.coin.puzzle_hash),
        record_claim(a) == record_claim(b),
    ensures
        a.coin == b.coin,
        a.confirmed_block_index == b.confirmed_block_index,
        a.spent_block_index == b.spent_block_index,
{
    let a_rest = decimal(a.confirmed_block_index as nat) + " spent "@ + decimal(
        a.spent_block_index as nat,
    );
    let b_rest = decimal(b.confirmed_block_index as nat) + " spent "@ + decimal(
        b.spent_block_index as nat,
    );
    reveal_strlit(" confirmed ");
    assert(record_claim(a) =~= coin_claim(a.coin) + " confirmed "@ + a_rest);
    assert(record_claim(b) =~= coin_claim(b.coin) + " confirmed "@ + b_rest);
    lemma_coin_splits(a.coin, b.coin, " confirmed "@, a_rest, b_rest);
    law_claim_fixes_the_heights(a, b);
}

/// Two spends make the same claim only if they are of the same coin and run the same puzzle with the
/// same solution.
pub proof fn law_spend_claim_fixes_the_spend(a: SpendView, b: SpendView)
    requires
        is_one_word(a.coin.parent_coin_info),
        is_one_word(a.coin.puzzle_hash),
        is_one_word(a.puzzle_reveal),
        is_one_word(b.coin.parent_coin_info),
        is_one_word(b.coin.puzzle_hash),
        is_one_word(b.puzzle_reveal),
        spend_claim(a) == spend_claim(b),
    ensures
        a.coin == b.coin,
        a.puzzle_reveal == b.puzzle_reveal,
        a.solution == b.solution,
{
    let a_rest = a.puzzle_reveal + " solution "@ + a.solution;
    let b_rest = b.puzzle_reveal + " solution "@ + b.solution;
    reveal_strlit(" puzzle ");
    reveal_strlit(" solution ");
    assert(spend_claim(a) =~= coin_claim(a.coin) + " puzzle "@ + a_rest);
    assert(spend_claim(b) =~= coin_claim(b.coin) + " puzzle "@ + b_rest);
    lemma_coin_splits(a.coin, b.coin, " puzzle "@, a_rest, b_rest);
    lemma_split_words(a.puzzle_reveal, b.puzzle_reveal, " solution "@, a.solution, b.solution);
}

/// Two block records make the same claim only if they agree on the height, the header and the
/// timestamp, a missing one included.
pub proof fn law_block_claim_fixes_the_block(a: BlockRecord, b: BlockRecord)
    requires
        is_one_word(a.header_hash@),
        is_one_word(b.header_hash@),
        block_claim(a) == block_claim(b),
    ensures
        a.height == b.height,
        a.header_hash@ == b.header_hash@,
        a.timestamp == b.timestamp,
{
    let a_time = match a.timestamp {
        Some(timestamp) => decimal(timestamp as nat),
        None => "none"@,
    };
    let b_time = match b.timestamp {
        Some(timestamp) => decimal(timestamp as nat),
        None => "none"@,
    };
    let a_rest = a.header_hash@ + " timestamp "@ + a_time;
    let b_rest = b.header_hash@ + " timestamp "@ + b_time;
    let a_height = decimal(a.height as nat);
    let b_height = decimal(b.height as nat);
    reveal_strlit(" header ");
    reveal_strlit(" timestamp ");
    reveal_strlit("none");
    let n = "height "@.len() as int;
    assert(block_claim(a).skip(n) =~= a_height + " header "@ + a_rest);
    assert(block_claim(b).skip(n) =~= b_height + " header "@ + b_rest);
    lemma_decimal_digits(a.height as nat);
    lemma_decimal_digits(b.height as nat);
    lemma_split(a_height, b_height, " header "@, a_rest, b_rest);
    lemma_decimal_injective(a.height as nat, b.height as nat);
    lemma_split_words(a.header_hash@, b.header_hash@, " timestamp "@, a_time, b_time);
    match (a.timestamp, b.timestamp) {
        (Some(s), Some(t)) => {
            lemma_decimal_injective(s as nat, t as nat);
        },
        (Some(s), None) => {
            lemma_decimal_digits(s as nat);
            assert('0' <= a_time[0] <= '9');
        },
        (None, Some(t)) => {
            lemma_decimal_digits(t as nat);
            assert('0' <= b_time[0] <= '9');
        },
        (None, None) => {},
    }
}

} // verus!
