//! What to ask coinset, and what its answers mean.
//!
//! Every question is a JSON body posted to an endpoint, and every answer carries a flag that says
//! whether it is one.

pub mod transport;

use vstd::prelude::*;

use crate::json::{
    find_member, items_view, lemma_value_view, member, members_view, Member, MemberView,
    NumberView, Value, ValueView,
};
use crate::text::{characters, trim, trimmed};
use crate::types::{
    spends_view, ChiaQueryError, Coin, CoinSpend, CoinView, ErrorView, MempoolInclusion,
    SpendBundle, SpendView, TxStatus,
};

verus! {

/// `text` without the slashes it ends in.
pub open spec fn without_slashes(text: Seq<char>) -> Seq<char>
    decreases text.len(),
{
    if text.len() > 0 && text.last() == '/' {
        without_slashes(text.drop_last())
    } else {
        text
    }
}

fn trim_slashes(text: &str) -> (trimmed: String)
    ensures
        trimmed@ == without_slashes(text@),
{
    let chars = characters(text);
    let mut to: usize = chars.len();
    assert(text@.take(to as int) =~= text@);
    while to > 0 && chars[to - 1] == '/'
        invariant
            to <= chars.len(),
            chars@ == text@,
            without_slashes(text@) == without_slashes(text@.take(to as int)),
        decreases to,
    {
        assert(text@.take(to as int).drop_last() =~= text@.take(to - 1));
        to = to - 1;
    }
    assert(text@.subrange(0, to as int) =~= text@.take(to as int));
    String::from_str(text.substring_char(0, to))
}

/// Which part of a response is the answer.
#[derive(Clone, Copy, Debug, PartialEq, Eq)]
pub enum Answer {
    /// All of it.
    Whole,
    /// This member of it.
    Member(&'static str),
}

/// A question to post.
#[derive(Debug, PartialEq, Eq)]
pub struct Request {
    pub url: String,
    pub body: Value,
    pub answer: Answer,
}

/// Whether `request` posts `members` to `endpoint` and wants all of the response.
pub open spec fn asks_whole(
    request: Request,
    base_url: Seq<char>,
    endpoint: Seq<char>,
    members: Seq<MemberView>,
) -> bool {
    &&& request.url@ == base_url + "/"@ + endpoint
    &&& request.body@ is Object && request.body@->Object_0 =~= members
    &&& request.answer is Whole
}

/// Whether `request` posts `members` to `endpoint` and wants the member `key` of the response.
pub open spec fn asks_member(
    request: Request,
    base_url: Seq<char>,
    endpoint: Seq<char>,
    members: Seq<MemberView>,
    key: Seq<char>,
) -> bool {
    &&& request.url@ == base_url + "/"@ + endpoint
    &&& request.body@ is Object && request.body@->Object_0 =~= members
    &&& request.answer matches Answer::Member(wanted) && wanted@ == key
}

/// A text under `key`.
pub open spec fn text_member(key: Seq<char>, text: Seq<char>) -> MemberView {
    MemberView { key, value: ValueView::String(text) }
}

/// A whole number under `key`.
pub open spec fn number_member(key: Seq<char>, n: u64) -> MemberView {
    MemberView { key, value: ValueView::Number(NumberView::PosInt(n)) }
}

/// A truth value under `key`.
pub open spec fn bool_member(key: Seq<char>, b: bool) -> MemberView {
    MemberView { key, value: ValueView::Bool(b) }
}

/// A height under `key`, or null where there is none.
pub open spec fn height_member(key: Seq<char>, height: Option<u32>) -> MemberView {
    MemberView {
        key,
        value: match height {
            Some(height) => ValueView::Number(NumberView::PosInt(height as u64)),
            None => ValueView::Null,
        },
    }
}

/// Texts under `key`.
pub open spec fn texts_member(key: Seq<char>, texts: Seq<String>) -> MemberView {
    MemberView {
        key,
        value: ValueView::Array(texts.map_values(|t: String| ValueView::String(t@))),
    }
}

/// Whole numbers under `key`.
pub open spec fn numbers_member(key: Seq<char>, numbers: Seq<u64>) -> MemberView {
    MemberView {
        key,
        value: ValueView::Array(
            numbers.map_values(|n: u64| ValueView::Number(NumberView::PosInt(n))),
        ),
    }
}

/// A body in the making.
pub struct Body {
    members: Vec<Member>,
}

impl Body {
    /// The members so far.
    pub closed spec fn members(&self) -> Seq<MemberView> {
        members_view(self.members@)
    }

    /// A body without members.
    pub fn new() -> (body: Self)
        ensures
            body.members() == Seq::<MemberView>::empty(),
    {
        let body = Body { members: Vec::new() };
        assert(body.members() =~= Seq::<MemberView>::empty());
        body
    }

    /// The body with another member.
    pub fn with(self, key: &str, value: Value) -> (body: Self)
        ensures
            body.members() == self.members().push(MemberView { key: key@, value: value@ }),
    {
        let Body { mut members } = self;
        let ghost before = members@;
        let added = Member::new(key, value);
        members.push(added);
        assert(members_view(members@) =~= members_view(before).push(added@));
        Body { members }
    }

    /// The body as JSON.
    pub fn finish(self) -> (value: Value)
        ensures
            value@ == ValueView::Object(self.members()),
    {
        broadcast use lemma_value_view;

        Value::Object(self.members)
    }
}

/// A coin as JSON.
pub open spec fn coin_value(coin: CoinView) -> ValueView {
    ValueView::Object(
        seq![
            number_member("amount"@, coin.amount),
            text_member("parent_coin_info"@, coin.parent_coin_info),
            text_member("puzzle_hash"@, coin.puzzle_hash),
        ],
    )
}

/// A spend as JSON.
pub open spec fn spend_value(spend: SpendView) -> ValueView {
    ValueView::Object(
        seq![
            MemberView { key: "coin"@, value: coin_value(spend.coin) },
            text_member("puzzle_reveal"@, spend.puzzle_reveal),
            text_member("solution"@, spend.solution),
        ],
    )
}

/// A bundle as JSON.
pub open spec fn bundle_value(spends: Seq<SpendView>, signature: Seq<char>) -> ValueView {
    ValueView::Object(
        seq![
            text_member("aggregated_signature"@, signature),
            MemberView {
                key: "coin_spends"@,
                value: ValueView::Array(spends.map_values(|s: SpendView| spend_value(s))),
            },
        ],
    )
}

fn coin_json(coin: &Coin) -> (value: Value)
    ensures
        value@ == coin_value(coin@),
{
    let body = Body::new().with("amount", Value::number(coin.amount)).with(
        "parent_coin_info",
        Value::text(coin.parent_coin_info.as_str()),
    ).with("puzzle_hash", Value::text(coin.puzzle_hash.as_str()));
    assert(body.members() =~= coin_value(coin@)->Object_0);
    body.finish()
}

fn spend_json(spend: &CoinSpend) -> (value: Value)
    ensures
        value@ == spend_value(spend@),
{
    let body = Body::new().with("coin", coin_json(&spend.coin)).with(
        "puzzle_reveal",
        Value::text(spend.puzzle_reveal.as_str()),
    ).with("solution", Value::text(spend.solution.as_str()));
    assert(body.members() =~= spend_value(spend@)->Object_0);
    body.finish()
}

/// A bundle as JSON.
pub fn bundle_json(bundle: &SpendBundle) -> (value: Value)
    ensures
        value@ == bundle_value(
            spends_view(bundle.coin_spends@),
            bundle.aggregated_signature@,
        ),
{
    broadcast use lemma_value_view;

    let ghost all = spends_view(bundle.coin_spends@);
    let ghost written = all.map_values(|s: SpendView| spend_value(s));
    let mut spends: Vec<Value> = Vec::new();
    let mut i: usize = 0;
    while i < bundle.coin_spends.len()
        invariant
            i <= bundle.coin_spends.len(),
            all == spends_view(bundle.coin_spends@),
            written == all.map_values(|s: SpendView| spend_value(s)),
            items_view(spends@) == written.take(i as int),
        decreases bundle.coin_spends.len() - i,
    {
        let ghost before = items_view(spends@);
        let spend = spend_json(&bundle.coin_spends[i]);
        assert(written[i as int] == spend@);
        assert(items_view(spends@.push(spend)) =~= before.push(spend@));
        assert(written.take(i + 1) =~= written.take(i as int).push(written[i as int]));
        spends.push(spend);
        i = i + 1;
    }
    assert(written.take(i as int) =~= written);
    let body = Body::new().with(
        "aggregated_signature",
        Value::text(bundle.aggregated_signature.as_str()),
    ).with("coin_spends", Value::Array(spends));
    assert(body.members() =~= bundle_value(all, bundle.aggregated_signature@)->Object_0);
    body.finish()
}

/// A client of one coinset server, over some transport.
pub struct CoinsetClient<T> {
    pub transport: T,
    pub base_url: String,
}

impl<T> CoinsetClient<T> {
    /// A client of the server at `base_url`, if its transport could be built.
    pub fn new(base_url: &str, transport: Result<T, ChiaQueryError>) -> (client: Result<
        Self,
        ChiaQueryError,
    >)
        ensures
            match (client, transport) {
                (Ok(c), Ok(t)) => c.transport == t && c.base_url@ == without_slashes(base_url@),
                (Err(e), Err(failure)) => e == failure,
                _ => false,
            },
    {
        match transport {
            Ok(transport) => Ok(CoinsetClient::with_transport(base_url, transport)),
            Err(e) => Err(e),
        }
    }

    /// A client of the server at `base_url` over `transport`.
    pub fn with_transport(base_url: &str, transport: T) -> (client: Self)
        ensures
            client.transport == transport,
            client.base_url@ == without_slashes(base_url@),
    {
        CoinsetClient { transport, base_url: trim_slashes(base_url) }
    }

    /// The question of `body` to `endpoint`.
    pub fn request(&self, endpoint: &str, body: Body, answer: Answer) -> (request: Request)
        ensures
            request.url@ == self.base_url@ + "/"@ + endpoint@,
            request.body@ == ValueView::Object(body.members()),
            request.answer == answer,
    {
        let url = self.base_url.clone().concat("/").concat(endpoint);
        Request { url, body: body.finish(), answer }
    }

    /// The question of a body that is JSON already, whose response is taken as it comes.
    pub fn post_raw(&self, endpoint: &str, body: Value) -> (request: Request)
        ensures
            request.url@ == self.base_url@ + "/"@ + endpoint@,
            request.body == body,
            request.answer is Whole,
    {
        let url = self.base_url.clone().concat("/").concat(endpoint);
        Request { url, body, answer: Answer::Whole }
    }

    /// What a block added and removed.
    pub fn get_additions_and_removals(&self, header_hash: &str) -> (request: Request)
        ensures
            asks_whole(
                request,
                self.base_url@,
                "get_additions_and_removals"@,
                seq![
                    text_member("header_hash"@, header_hash@),
                ],
            ),
    {
        let body = Body::new().with("header_hash", Value::text(header_hash));
        self.request("get_additions_and_removals", body, Answer::Whole)
    }

    /// A block.
    pub fn get_block(&self, header_hash: &str) -> (request: Request)
        ensures
            asks_member(
                request,
                self.base_url@,
                "get_block"@,
                seq![
                    text_member("header_hash"@, header_hash@),
                ],
                "block"@,
            ),
    {
        let body = Body::new().with("header_hash", Value::text(header_hash));
        self.request("get_block", body, Answer::Member("block"))
    }

    /// How many blocks of each kind there are.
    pub fn get_block_count_metrics(&self) -> (request: Request)
        ensures
            asks_member(
                request,
                self.base_url@,
                "get_block_count_metrics"@,
                Seq::empty(),
                "metrics"@,
            ),
    {
        let body = Body::new();
        self.request("get_block_count_metrics", body, Answer::Member("metrics"))
    }

    /// A block record.
    pub fn get_block_record(&self, header_hash: &str) -> (request: Request)
        ensures
            asks_member(
                request,
                self.base_url@,
                "get_block_record"@,
                seq![
                    text_member("header_hash"@, header_hash@),
                ],
                "block_record"@,
            ),
    {
        let body = Body::new().with("header_hash", Value::text(header_hash));
        self.request("get_block_record", body, Answer::Member("block_record"))
    }

    /// A block record, by height.
    pub fn get_block_record_by_height(&self, height: u32) -> (request: Request)
        ensures
            asks_member(
                request,
                self.base_url@,
                "get_block_record_by_height"@,
                seq![
                    number_member("height"@, height as u64),
                ],
                "block_record"@,
            ),
    {
        let body = Body::new().with("height", Value::number(height as u64));
        self.request("get_block_record_by_height", body, Answer::Member("block_record"))
    }

    /// The block records from `start` up to `end`.
    pub fn get_block_records(&self, start: u32, end: u32) -> (request: Request)
        ensures
            asks_member(
                request,
                self.base_url@,
                "get_block_records"@,
                seq![
                    number_member("start"@, start as u64),
                    number_member("end"@, end as u64),
                ],
                "block_records"@,
            ),
    {
        let body = Body::new().with("start", Value::number(start as u64)).with("end", Value::number(end as u64));
        self.request("get_block_records", body, Answer::Member("block_records"))
    }

    /// The spends of a block.
    pub fn get_block_spends(&self, header_hash: &str) -> (request: Request)
        ensures
            asks_member(
                request,
                self.base_url@,
                "get_block_spends"@,
                seq![
                    text_member("header_hash"@, header_hash@),
                ],
                "block_spends"@,
            ),
    {
        let body = Body::new().with("header_hash", Value::text(header_hash));
        self.request("get_block_spends", body, Answer::Member("block_spends"))
    }

    /// The spends of a block with their conditions.
    pub fn get_block_spends_with_conditions(&self, header_hash: &str) -> (request: Request)
        ensures
            asks_member(
                request,
                self.base_url@,
                "get_block_spends_with_conditions"@,
                seq![
                    text_member("header_hash"@, header_hash@),
                ],
                "block_spends_with_conditions"@,
            ),
    {
        let body = Body::new().with("header_hash", Value::text(header_hash));
        self.request("get_block_spends_with_conditions", body, Answer::Member("block_spends_with_conditions"))
    }

    /// The blocks from `start` up to `end`.
    pub fn get_blocks(
        &self,
        start: u32,
        end: u32,
        exclude_header_hash: bool,
        exclude_reorged: bool,
    ) -> (request: Request)
        ensures
            asks_member(
                request,
                self.base_url@,
                "get_blocks"@,
                seq![
                    number_member("start"@, start as u64),
                    number_member("end"@, end as u64),
                    bool_member("exclude_header_hash"@, exclude_header_hash),
                    bool_member("exclude_reorged"@, exclude_reorged),
                ],
                "blocks"@,
            ),
    {
        let body = Body::new().with("start", Value::number(start as u64)).with("end", Value::number(end as u64)).with("exclude_header_hash", Value::Bool(exclude_header_hash)).with("exclude_reorged", Value::Bool(exclude_reorged));
        self.request("get_blocks", body, Answer::Member("blocks"))
    }

    /// The headers of the blocks in the making.
    pub fn get_unfinished_block_headers(&self) -> (request: Request)
        ensures
            asks_member(
                request,
                self.base_url@,
                "get_unfinished_block_headers"@,
                Seq::empty(),
                "headers"@,
            ),
    {
        let body = Body::new();
        self.request("get_unfinished_block_headers", body, Answer::Member("headers"))
    }

    /// A coin.
    pub fn get_coin_record_by_name(&self, name: &str) -> (request: Request)
        ensures
            asks_member(
                request,
                self.base_url@,
                "get_coin_record_by_name"@,
                seq![
                    text_member("name"@, name@),
                ],
                "coin_record"@,
            ),
    {
        let body = Body::new().with("name", Value::text(name));
        self.request("get_coin_record_by_name", body, Answer::Member("coin_record"))
    }

    /// The coins with a hint.
    pub fn get_coin_records_by_hint(
        &self,
        hint: &str,
        start_height: Option<u32>,
        end_height: Option<u32>,
        include_spent_coins: bool,
    ) -> (request: Request)
        ensures
            asks_member(
                request,
                self.base_url@,
                "get_coin_records_by_hint"@,
                seq![
                    text_member("hint"@, hint@),
                    height_member("start_height"@, start_height),
                    height_member("end_height"@, end_height),
                    bool_member("include_spent_coins"@, include_spent_coins),
                ],
                "coin_records"@,
            ),
    {
        let body = Body::new().with("hint", Value::text(hint)).with("start_height", Value::number_or_null(start_height)).with("end_height", Value::number_or_null(end_height)).with("include_spent_coins", Value::Bool(include_spent_coins));
        self.request("get_coin_records_by_hint", body, Answer::Member("coin_records"))
    }

    /// The coins with any of some hints.
    pub fn get_coin_records_by_hints(
        &self,
        hints: &[String],
        start_height: Option<u32>,
        end_height: Option<u32>,
        include_spent_coins: bool,
    ) -> (request: Request)
        ensures
            asks_member(
                request,
                self.base_url@,
                "get_coin_records_by_hints"@,
                seq![
                    texts_member("hints"@, hints@),
                    height_member("start_height"@, start_height),
                    height_member("end_height"@, end_height),
                    bool_member("include_spent_coins"@, include_spent_coins),
                ],
                "coin_records"@,
            ),
    {
        let body = Body::new().with("hints", Value::texts(hints)).with("start_height", Value::number_or_null(start_height)).with("end_height", Value::number_or_null(end_height)).with("include_spent_coins", Value::Bool(include_spent_coins));
        self.request("get_coin_records_by_hints", body, Answer::Member("coin_records"))
    }

    /// Some coins.
    pub fn get_coin_records_by_names(
        &self,
        names: &[String],
        start_height: Option<u32>,
        end_height: Option<u32>,
        include_spent_coins: bool,
    ) -> (request: Request)
        ensures
            asks_member(
                request,
                self.base_url@,
                "get_coin_records_by_names"@,
                seq![
                    texts_member("names"@, names@),
                    height_member("start_height"@, start_height),
                    height_member("end_height"@, end_height),
                    bool_member("include_spent_coins"@, include_spent_coins),
                ],
                "coin_records"@,
            ),
    {
        let body = Body::new().with("names", Value::texts(names)).with("start_height", Value::number_or_null(start_height)).with("end_height", Value::number_or_null(end_height)).with("include_spent_coins", Value::Bool(include_spent_coins));
        self.request("get_coin_records_by_names", body, Answer::Member("coin_records"))
    }

    /// The children of some coins.
    pub fn get_coin_records_by_parent_ids(
        &self,
        parent_ids: &[String],
        start_height: Option<u32>,
        end_height: Option<u32>,
        include_spent_coins: bool,
    ) -> (request: Request)
        ensures
            asks_member(
                request,
                self.base_url@,
                "get_coin_records_by_parent_ids"@,
                seq![
                    texts_member("parent_ids"@, parent_ids@),
                    height_member("start_height"@, start_height),
                    height_member("end_height"@, end_height),
                    bool_member("include_spent_coins"@, include_spent_coins),
                ],
                "coin_records"@,
            ),
    {
        let body = Body::new().with("parent_ids", Value::texts(parent_ids)).with("start_height", Value::number_or_null(start_height)).with("end_height", Value::number_or_null(end_height)).with("include_spent_coins", Value::Bool(include_spent_coins));
        self.request("get_coin_records_by_parent_ids", body, Answer::Member("coin_records"))
    }

    /// The coins at a puzzle hash.
    pub fn get_coin_records_by_puzzle_hash(
        &self,
        puzzle_hash: &str,
        start_height: Option<u32>,
        end_height: Option<u32>,
        include_spent_coins: bool,
    ) -> (request: Request)
        ensures
            asks_member(
                request,
                self.base_url@,
                "get_coin_records_by_puzzle_hash"@,
                seq![
                    text_member("puzzle_hash"@, puzzle_hash@),
                    height_member("start_height"@, start_height),
                    height_member("end_height"@, end_height),
                    bool_member("include_spent_coins"@, include_spent_coins),
                ],
                "coin_records"@,
            ),
    {
        let body = Body::new().with("puzzle_hash", Value::text(puzzle_hash)).with("start_height", Value::number_or_null(start_height)).with("end_height", Value::number_or_null(end_height)).with("include_spent_coins", Value::Bool(include_spent_coins));
        self.request("get_coin_records_by_puzzle_hash", body, Answer::Member("coin_records"))
    }

    /// The coins at any of some puzzle hashes.
    pub fn get_coin_records_by_puzzle_hashes(
        &self,
        puzzle_hashes: &[String],
        start_height: Option<u32>,
        end_height: Option<u32>,
        include_spent_coins: bool,
    ) -> (request: Request)
        ensures
            asks_member(
                request,
                self.base_url@,
                "get_coin_records_by_puzzle_hashes"@,
                seq![
                    texts_member("puzzle_hashes"@, puzzle_hashes@),
                    height_member("start_height"@, start_height),
                    height_member("end_height"@, end_height),
                    bool_member("include_spent_coins"@, include_spent_coins),
                ],
                "coin_records"@,
            ),
    {
        let body = Body::new().with("puzzle_hashes", Value::texts(puzzle_hashes)).with("start_height", Value::number_or_null(start_height)).with("end_height", Value::number_or_null(end_height)).with("include_spent_coins", Value::Bool(include_spent_coins));
        self.request("get_coin_records_by_puzzle_hashes", body, Answer::Member("coin_records"))
    }

    /// The memos of a coin.
    pub fn get_memos_by_coin_name(&self, name: &str) -> (request: Request)
        ensures
            asks_member(
                request,
                self.base_url@,
                "get_memos_by_coin_name"@,
                seq![
                    text_member("name"@, name@),
                ],
                "memos"@,
            ),
    {
        let body = Body::new().with("name", Value::text(name));
        self.request("get_memos_by_coin_name", body, Answer::Member("memos"))
    }

    /// The spend of a coin.
    pub fn get_puzzle_and_solution(&self, coin_id: &str, height: Option<u32>) -> (request: Request)
        ensures
            asks_member(
                request,
                self.base_url@,
                "get_puzzle_and_solution"@,
                seq![
                    text_member("coin_id"@, coin_id@),
                    height_member("height"@, height),
                ],
                "coin_solution"@,
            ),
    {
        let body = Body::new().with("coin_id", Value::text(coin_id)).with("height", Value::number_or_null(height));
        self.request("get_puzzle_and_solution", body, Answer::Member("coin_solution"))
    }

    /// The spend of a coin with its conditions.
    pub fn get_puzzle_and_solution_with_conditions(&self, coin_id: &str, height: Option<u32>) -> (request: Request)
        ensures
            asks_whole(
                request,
                self.base_url@,
                "get_puzzle_and_solution_with_conditions"@,
                seq![
                    text_member("coin_id"@, coin_id@),
                    height_member("height"@, height),
                ],
            ),
    {
        let body = Body::new().with("coin_id", Value::text(coin_id)).with("height", Value::number_or_null(height));
        self.request("get_puzzle_and_solution_with_conditions", body, Answer::Whole)
    }

    /// What signatures over a coin's own id are made over besides it.
    pub fn get_aggsig_additional_data(&self) -> (request: Request)
        ensures
            asks_member(
                request,
                self.base_url@,
                "get_aggsig_additional_data"@,
                Seq::empty(),
                "additional_data"@,
            ),
    {
        let body = Body::new();
        self.request("get_aggsig_additional_data", body, Answer::Member("additional_data"))
    }

    /// The network.
    pub fn get_network_info(&self) -> (request: Request)
        ensures
            asks_whole(
                request,
                self.base_url@,
                "get_network_info"@,
                Seq::empty(),
            ),
    {
        let body = Body::new();
        self.request("get_network_info", body, Answer::Whole)
    }

    /// The state of the chain.
    pub fn get_blockchain_state(&self) -> (request: Request)
        ensures
            asks_member(
                request,
                self.base_url@,
                "get_blockchain_state"@,
                Seq::empty(),
                "blockchain_state"@,
            ),
    {
        let body = Body::new();
        self.request("get_blockchain_state", body, Answer::Member("blockchain_state"))
    }

    /// The space of the network between two blocks.
    pub fn get_network_space(&self, newer_block_header_hash: &str, older_block_header_hash: &str) -> (request: Request)
        ensures
            asks_member(
                request,
                self.base_url@,
                "get_network_space"@,
                seq![
                    text_member("newer_block_header_hash"@, newer_block_header_hash@),
                    text_member("older_block_header_hash"@, older_block_header_hash@),
                ],
                "space"@,
            ),
    {
        let body = Body::new().with("newer_block_header_hash", Value::text(newer_block_header_hash)).with("older_block_header_hash", Value::text(older_block_header_hash));
        self.request("get_network_space", body, Answer::Member("space"))
    }

    /// What is in the mempool.
    pub fn get_all_mempool_items(&self) -> (request: Request)
        ensures
            asks_member(
                request,
                self.base_url@,
                "get_all_mempool_items"@,
                Seq::empty(),
                "mempool_items"@,
            ),
    {
        let body = Body::new();
        self.request("get_all_mempool_items", body, Answer::Member("mempool_items"))
    }

    /// The ids of what is in the mempool.
    pub fn get_all_mempool_tx_ids(&self) -> (request: Request)
        ensures
            asks_member(
                request,
                self.base_url@,
                "get_all_mempool_tx_ids"@,
                Seq::empty(),
                "tx_ids"@,
            ),
    {
        let body = Body::new();
        self.request("get_all_mempool_tx_ids", body, Answer::Member("tx_ids"))
    }

    /// An item of the mempool.
    pub fn get_mempool_item_by_tx_id(&self, tx_id: &str) -> (request: Request)
        ensures
            asks_member(
                request,
                self.base_url@,
                "get_mempool_item_by_tx_id"@,
                seq![
                    text_member("tx_id"@, tx_id@),
                ],
                "mempool_item"@,
            ),
    {
        let body = Body::new().with("tx_id", Value::text(tx_id));
        self.request("get_mempool_item_by_tx_id", body, Answer::Member("mempool_item"))
    }


    /// A pushed transaction.
    pub fn push_tx(&self, bundle: &SpendBundle) -> (request: Request)
        ensures
            asks_whole(
                request,
                self.base_url@,
                "push_tx"@,
                seq![
                    MemberView {
                        key: "spend_bundle"@,
                        value: bundle_value(
                            spends_view(bundle.coin_spends@),
                            bundle.aggregated_signature@,
                        ),
                    },
                ],
            ),
    {
        let body = Body::new().with("spend_bundle", bundle_json(bundle));
        self.request("push_tx", body, Answer::Whole)
    }

    /// What a transaction has to pay to be included by some times.
    pub fn get_fee_estimate(
        &self,
        spend_bundle: Option<&SpendBundle>,
        target_times: Option<&[u64]>,
        spend_count: Option<u64>,
    ) -> (request: Request)
        ensures
            asks_whole(
                request,
                self.base_url@,
                "get_fee_estimate"@,
                fee_members(spend_bundle, target_times, spend_count),
            ),
    {
        let mut body = Body::new().with("cost", Value::number(1));
        if let Some(bundle) = spend_bundle {
            body = body.with("spend_bundle", bundle_json(bundle));
        }
        if let Some(times) = target_times {
            body = body.with("target_times", Value::numbers(times));
        }
        if let Some(count) = spend_count {
            body = body.with("spend_count", Value::number(count));
        }
        self.request("get_fee_estimate", body, Answer::Whole)
    }

    /// The items of the mempool that concern a coin.
    pub fn get_mempool_items_by_coin_name(
        &self,
        coin_name: &str,
        include_spent_coins: Option<bool>,
    ) -> (request: Request)
        ensures
            asks_member(
                request,
                self.base_url@,
                "get_mempool_items_by_coin_name"@,
                match include_spent_coins {
                    Some(included) => seq![
                        text_member("coin_name"@, coin_name@),
                        bool_member("include_spent_coins"@, included),
                    ],
                    None => seq![text_member("coin_name"@, coin_name@)],
                },
                "mempool_items"@,
            ),
    {
        let mut body = Body::new().with("coin_name", Value::text(coin_name));
        if let Some(included) = include_spent_coins {
            body = body.with("include_spent_coins", Value::Bool(included));
        }
        self.request("get_mempool_items_by_coin_name", body, Answer::Member("mempool_items"))
    }
}

/// What is asked of a fee estimate.
pub open spec fn fee_members(
    spend_bundle: Option<&SpendBundle>,
    target_times: Option<&[u64]>,
    spend_count: Option<u64>,
) -> Seq<MemberView> {
    let cost = seq![number_member("cost"@, 1)];
    let bundled = match spend_bundle {
        Some(bundle) => cost.push(
            MemberView {
                key: "spend_bundle"@,
                value: bundle_value(
                    spends_view(bundle.coin_spends@),
                    bundle.aggregated_signature@,
                ),
            },
        ),
        None => cost,
    };
    let timed = match target_times {
        Some(times) => bundled.push(numbers_member("target_times"@, times@)),
        None => bundled,
    };
    match spend_count {
        Some(count) => timed.push(number_member("spend_count"@, count)),
        None => timed,
    }
}

/// A text that is not blank, without the white space around it.
pub open spec fn stated(value: Option<ValueView>) -> Option<Seq<char>> {
    match value {
        Some(ValueView::String(text)) => if trimmed(text).len() == 0 {
            None
        } else {
            Some(trimmed(text))
        },
        _ => None,
    }
}

/// The message of a structured error: a text as it is, or what an object states.
pub open spec fn structured_message(value: Option<ValueView>) -> Option<Seq<char>> {
    match value {
        Some(ValueView::String(text)) => if trimmed(text).len() == 0 {
            None
        } else {
            Some(text)
        },
        Some(ValueView::Object(members)) => match stated(member(members, "message"@)) {
            Some(text) => Some(text),
            None => stated(member(members, "error"@)),
        },
        _ => None,
    }
}

/// The message of an error response: its structured error before its legacy one. A traceback is
/// the server's own business and is never part of it.
pub open spec fn error_message(response: ValueView) -> Seq<char> {
    match structured_message(response.get("structuredError"@)) {
        Some(text) => text,
        None => match stated(response.get("error"@)) {
            Some(text) => text,
            None => "unknown error"@,
        },
    }
}

/// A value by its view, where there is one.
pub open spec fn seen(value: Option<&Value>) -> Option<ValueView> {
    match value {
        Some(v) => Some(v@),
        None => None,
    }
}

/// A text that is not blank, without the white space around it.
fn non_empty_str(value: Option<&Value>) -> (text: Option<String>)
    ensures
        match text {
            Some(t) => stated(seen(value)) == Some(t@),
            None => stated(seen(value)) is None,
        },
{
    broadcast use lemma_value_view;

    match value {
        Some(Value::String(text)) => {
            let inner = trim(text.as_str());
            if inner.is_empty() {
                None
            } else {
                Some(String::from_str(inner))
            }
        },
        _ => None,
    }
}

/// The message of a structured error.
fn structured_error_message(value: Option<&Value>) -> (text: Option<String>)
    ensures
        match text {
            Some(t) => structured_message(seen(value)) == Some(t@),
            None => structured_message(seen(value)) is None,
        },
{
    broadcast use lemma_value_view;

    match value {
        Some(Value::String(text)) => {
            if trim(text.as_str()).is_empty() {
                None
            } else {
                Some(text.clone())
            }
        },
        Some(Value::Object(members)) => match non_empty_str(find_member(members, "message")) {
            Some(text) => Some(text),
            None => non_empty_str(find_member(members, "error")),
        },
        _ => None,
    }
}

/// The message of an error response.
pub fn coinset_error_message(response: &Value) -> (message: String)
    ensures
        message@ == error_message(response@),
{
    match structured_error_message(response.get("structuredError")) {
        Some(text) => text,
        None => match non_empty_str(response.get("error")) {
            Some(text) => text,
            None => String::from_str("unknown error"),
        },
    }
}

/// Takes a response that says it is an answer, and turns any other into an error.
pub fn post(response: Value) -> (answer: Result<Value, ChiaQueryError>)
    ensures
        match answer {
            Ok(a) => a == response && response@.get("success"@) == Some(ValueView::Bool(true)),
            Err(e) => response@.get("success"@) != Some(ValueView::Bool(true)) && e@
                == ErrorView::CoinsetApiError(error_message(response@)),
        },
{
    broadcast use lemma_value_view;

    let succeeded: bool = match response.get("success") {
        Some(Value::Bool(b)) => *b,
        _ => false,
    };
    if succeeded {
        Ok(response)
    } else {
        Err(ChiaQueryError::CoinsetApiError(coinset_error_message(&response)))
    }
}

/// Takes the member `key` of a response that says it is an answer, and turns any other response
/// into an error. An answer without the member has null for it.
pub fn post_extract(response: Value, key: &str) -> (answer: Result<Value, ChiaQueryError>)
    ensures
        match answer {
            Ok(a) => response@.get("success"@) == Some(ValueView::Bool(true)) && a@ == (
            match response@.get(key@) {
                Some(value) => value,
                None => ValueView::Null,
            }),
            Err(e) => response@.get("success"@) != Some(ValueView::Bool(true)) && e@
                == ErrorView::CoinsetApiError(error_message(response@)),
        },
{
    match post(response) {
        Ok(answer) => Ok(answer.take(key)),
        Err(e) => Err(e),
    }
}

/// How a transaction that coinset took is reported: with the status it states.
pub fn pushed(response: &Value) -> (status: TxStatus)
    ensures
        status.status@ == (match response@.get("status"@) {
            Some(ValueView::String(text)) => text,
            _ => "UNKNOWN"@,
        }),
        status.success,
        status.error is None,
        status.inclusion == (if status.status@ == "SUCCESS"@ {
            MempoolInclusion::Admitted
        } else if status.status@ == "PENDING"@ {
            MempoolInclusion::NotAdmitted
        } else if status.status@ == "FAILED"@ {
            MempoolInclusion::Failed
        } else {
            MempoolInclusion::Unknown
        }),
{
    broadcast use lemma_value_view;

    let status = match response.get("status") {
        Some(Value::String(text)) => text.clone(),
        _ => String::from_str("UNKNOWN"),
    };
    let inclusion = if status == String::from_str("SUCCESS") {
        MempoolInclusion::Admitted
    } else if status == String::from_str("PENDING") {
        MempoolInclusion::NotAdmitted
    } else if status == String::from_str("FAILED") {
        MempoolInclusion::Failed
    } else {
        MempoolInclusion::Unknown
    };
    TxStatus { status, success: true, inclusion, error: None }
}

/// A traceback does not change what an error says.
pub proof fn law_traceback_is_never_shown(
    members: Seq<MemberView>,
    traceback: ValueView,
    other: ValueView,
)
    ensures
        error_message(
            ValueView::Object(members.push(MemberView { key: "traceback"@, value: traceback })),
        ) == error_message(
            ValueView::Object(members.push(MemberView { key: "traceback"@, value: other })),
        ),
{
    reveal_strlit("traceback");
    reveal_strlit("structuredError");
    reveal_strlit("error");
    assert("traceback"@[0] != "structuredError"@[0]);
    assert("traceback"@[0] != "error"@[0]);
    lemma_other_key(members, "traceback"@, traceback, other, "structuredError"@);
    lemma_other_key(members, "traceback"@, traceback, other, "error"@);
}

proof fn lemma_other_key(
    members: Seq<MemberView>,
    key: Seq<char>,
    a: ValueView,
    b: ValueView,
    sought: Seq<char>,
)
    requires
        key != sought,
    ensures
        member(members.push(MemberView { key, value: a }), sought) == member(
            members.push(MemberView { key, value: b }),
            sought,
        ),
    decreases members.len(),
{
    let with_a = members.push(MemberView { key, value: a });
    let with_b = members.push(MemberView { key, value: b });
    if members.len() > 0 {
        lemma_other_key(members.drop_first(), key, a, b, sought);
        assert(with_a.drop_first() =~= members.drop_first().push(MemberView { key, value: a }));
        assert(with_b.drop_first() =~= members.drop_first().push(MemberView { key, value: b }));
    } else {
        assert(with_a.drop_first() =~= Seq::<MemberView>::empty());
        assert(with_b.drop_first() =~= Seq::<MemberView>::empty());
    }
}

proof fn lemma_keys_of_a_bundle()
    ensures
        "aggregated_signature"@ != "coin_spends"@,
        "coin"@ != "puzzle_reveal"@,
        "coin"@ != "solution"@,
        "puzzle_reveal"@ != "solution"@,
        "amount"@ != "parent_coin_info"@,
        "amount"@ != "puzzle_hash"@,
        "parent_coin_info"@ != "puzzle_hash"@,
{
    reveal_strlit("aggregated_signature");
    reveal_strlit("coin_spends");
    reveal_strlit("coin");
    reveal_strlit("puzzle_reveal");
    reveal_strlit("solution");
    reveal_strlit("amount");
    reveal_strlit("parent_coin_info");
    reveal_strlit("puzzle_hash");
    assert("aggregated_signature"@.len() == 20 && "coin_spends"@.len() == 11);
    assert("coin"@.len() == 4 && "puzzle_reveal"@.len() == 13 && "solution"@.len() == 8);
    assert("amount"@.len() == 6 && "parent_coin_info"@.len() == 16);
    assert("puzzle_hash"@.len() == 11);
}

/// A bundle can be read back whole from the JSON written for it: the signature, and as many spends as
/// it has, each with its coin, its puzzle and its solution.
pub proof fn law_bundle_can_be_read_back(spends: Seq<SpendView>, signature: Seq<char>)
    ensures
        ({
            let written = bundle_value(spends, signature);
            let items = written.get("coin_spends"@);
            &&& written.get("aggregated_signature"@) == Some(ValueView::String(signature))
            &&& items is Some && items->0 is Array && items->0->Array_0.len() == spends.len()
            &&& forall|i: int|
                0 <= i < spends.len() ==> {
                    let item = #[trigger] items->0->Array_0[i];
                    let coin = item.get("coin"@);
                    &&& item.get("puzzle_reveal"@) == Some(
                        ValueView::String(spends[i].puzzle_reveal),
                    )
                    &&& item.get("solution"@) == Some(ValueView::String(spends[i].solution))
                    &&& coin is Some
                    &&& coin->0.get("amount"@) == Some(
                        ValueView::Number(NumberView::PosInt(spends[i].coin.amount)),
                    )
                    &&& coin->0.get("parent_coin_info"@) == Some(
                        ValueView::String(spends[i].coin.parent_coin_info),
                    )
                    &&& coin->0.get("puzzle_hash"@) == Some(
                        ValueView::String(spends[i].coin.puzzle_hash),
                    )
                }
        }),
{
    lemma_keys_of_a_bundle();
    reveal_with_fuel(member, 4);
    let written = bundle_value(spends, signature);
    let members = written->Object_0;
    assert(members.drop_first()[0] == members[1]);
    let items = members[1].value->Array_0;
    assert forall|i: int| 0 <= i < spends.len() implies {
        let item = #[trigger] items[i];
        let coin = item.get("coin"@);
        &&& item.get("puzzle_reveal"@) == Some(ValueView::String(spends[i].puzzle_reveal))
        &&& item.get("solution"@) == Some(ValueView::String(spends[i].solution))
        &&& coin is Some
        &&& coin->0.get("amount"@) == Some(
            ValueView::Number(NumberView::PosInt(spends[i].coin.amount)),
        )
        &&& coin->0.get("parent_coin_info"@) == Some(
            ValueView::String(spends[i].coin.parent_coin_info),
        )
        &&& coin->0.get("puzzle_hash"@) == Some(ValueView::String(spends[i].coin.puzzle_hash))
    } by {
        let item = items[i];
        assert(item == spend_value(spends[i]));
        let parts = item->Object_0;
        assert(parts.drop_first()[0] == parts[1]);
        assert(parts.drop_first().drop_first()[0] == parts[2]);
        let coin = parts[0].value->Object_0;
        assert(coin.drop_first()[0] == coin[1]);
        assert(coin.drop_first().drop_first()[0] == coin[2]);
    }
}

proof fn lemma_slashes(text: Seq<char>)
    ensures
        without_slashes(text).len() <= text.len(),
        text.take(without_slashes(text).len() as int) == without_slashes(text),
        forall|i: int| without_slashes(text).len() <= i < text.len() ==> #[trigger] text[i] == '/',
        without_slashes(text).len() > 0 ==> without_slashes(text).last() != '/',
    decreases text.len(),
{
    let kept = without_slashes(text);
    if text.len() > 0 && text.last() == '/' {
        let init = text.drop_last();
        lemma_slashes(init);
        assert(text.take(kept.len() as int) =~= init.take(kept.len() as int));
        assert forall|i: int| kept.len() <= i < text.len() implies #[trigger] text[i] == '/' by {
            if i < init.len() {
                assert(init[i] == '/');
            }
        }
    } else {
        assert(text.take(kept.len() as int) =~= text);
    }
}

/// Of a server's address only the slashes it ends in are taken away, and all of them.
pub proof fn law_only_the_last_slashes_are_taken_away(text: Seq<char>)
    ensures
        exists|n: int|
            0 <= n <= text.len() && #[trigger] text.take(n) == without_slashes(text) && (n > 0
                ==> text[n - 1] != '/') && forall|i: int|
                n <= i < text.len() ==> #[trigger] text[i] == '/',
{
    lemma_slashes(text);
    let n = without_slashes(text).len() as int;
    assert(text.take(n) == without_slashes(text));
    if n > 0 {
        assert(text.take(n)[n - 1] == text[n - 1]);
    }
}

/// A request goes to its endpoint of the server, carries each of its members under the member's
/// key, and names the part of the response that answers it.
pub proof fn law_a_request_carries_what_is_asked(
    request: Request,
    base_url: Seq<char>,
    endpoint: Seq<char>,
    members: Seq<MemberView>,
    key: Seq<char>,
    i: int,
)
    requires
        asks_whole(request, base_url, endpoint, members) || asks_member(
            request,
            base_url,
            endpoint,
            members,
            key,
        ),
        0 <= i < members.len(),
        forall|j: int| 0 <= j < i ==> (#[trigger] members[j]).key != members[i].key,
    ensures
        request.url@ == base_url + "/"@ + endpoint,
        request.body@.get(members[i].key) == Some(members[i].value),
        request.answer is Whole <==> !asks_member(request, base_url, endpoint, members, key),
        asks_member(request, base_url, endpoint, members, key) ==> (
        request.answer matches Answer::Member(wanted) && wanted@ == key),
{
    crate::json::law_a_key_is_looked_up_to_the_first_member(members, members[i].key, i);
    assert(request.body@ == ValueView::Object(members));
}

/// Each kind of member holds what it is made of: a text, a number, a truth value, a height or null,
/// and lists of texts and of numbers item by item.
pub proof fn law_members_hold_what_they_are_made_of(
    key: Seq<char>,
    text: Seq<char>,
    n: u64,
    b: bool,
    height: Option<u32>,
    texts: Seq<String>,
    numbers: Seq<u64>,
)
    ensures
        text_member(key, text).key == key,
        text_member(key, text).value == ValueView::String(text),
        number_member(key, n).key == key,
        number_member(key, n).value == ValueView::Number(NumberView::PosInt(n)),
        bool_member(key, b).key == key,
        bool_member(key, b).value == ValueView::Bool(b),
        height_member(key, height).key == key,
        height is None <==> height_member(key, height).value is Null,
        height matches Some(h) ==> height_member(key, height).value == ValueView::Number(
            NumberView::PosInt(h as u64),
        ),
        texts_member(key, texts).key == key,
        texts_member(key, texts).value->Array_0.len() == texts.len(),
        forall|i: int|
            0 <= i < texts.len() ==> #[trigger] texts_member(key, texts).value->Array_0[i]
                == ValueView::String(texts[i]@),
        texts_member(key, texts).value is Array,
        numbers_member(key, numbers).key == key,
        numbers_member(key, numbers).value->Array_0.len() == numbers.len(),
        forall|i: int|
            0 <= i < numbers.len() ==> #[trigger] numbers_member(key, numbers).value->Array_0[i]
                == ValueView::Number(NumberView::PosInt(numbers[i])),
        numbers_member(key, numbers).value is Array,
{
}

/// A fee estimate is asked for with a cost of one and with exactly what the caller gives: the whole
/// bundle, the times and the count, each under its key, and nothing in place of what is not given.
pub proof fn law_a_fee_estimate_asks_for_what_is_given(
    spend_bundle: Option<&SpendBundle>,
    target_times: Option<&[u64]>,
    spend_count: Option<u64>,
)
    ensures
        ({
            let body = ValueView::Object(fee_members(spend_bundle, target_times, spend_count));
            &&& body.get("cost"@) == Some(ValueView::Number(NumberView::PosInt(1)))
            &&& body.get("spend_bundle"@) == (match spend_bundle {
                Some(bundle) => Some(
                    bundle_value(
                        spends_view(bundle.coin_spends@),
                        bundle.aggregated_signature@,
                    ),
                ),
                None => None,
            })
            &&& body.get("target_times"@) == (match target_times {
                Some(times) => Some(
                    ValueView::Array(
                        times@.map_values(|n: u64| ValueView::Number(NumberView::PosInt(n))),
                    ),
                ),
                None => None,
            })
            &&& body.get("spend_count"@) == (match spend_count {
                Some(count) => Some(ValueView::Number(NumberView::PosInt(count))),
                None => None,
            })
        }),
{
    reveal_strlit("cost");
    reveal_strlit("spend_bundle");
    reveal_strlit("target_times");
    reveal_strlit("spend_count");
    assert("cost"@.len() == 4 && "spend_bundle"@.len() == 12 && "target_times"@.len() == 12);
    assert("spend_count"@.len() == 11);
    assert("spend_bundle"@[0] == 's' && "target_times"@[0] == 't');
    let members = fee_members(spend_bundle, target_times, spend_count);
    reveal_with_fuel(member, 5);
    let one = members.drop_first();
    let two = one.drop_first();
    let three = two.drop_first();
    if members.len() > 1 {
        assert(one[0] == members[1]);
    }
    if members.len() > 2 {
        assert(two[0] == members[2]);
    }
    if members.len() > 3 {
        assert(three[0] == members[3]);
    }
}

/// An error is told by the first of these that says something: the text of the structured error, as
/// it is; its message; its error; the legacy error, each without the white space around it. What
/// says nothing leaves an unknown error.
pub proof fn law_an_error_is_told_by_the_first_that_says_something(
    response: ValueView,
    structured: ValueView,
    text: Seq<char>,
)
    ensures
        ({
            let says = |value: Option<ValueView>, text: Seq<char>|
                value == Some(ValueView::String(text)) && trimmed(text).len() > 0;
            let silent = |value: Option<ValueView>|
                match value {
                    Some(ValueView::String(blank)) => trimmed(blank).len() == 0,
                    _ => true,
                };
            let inner = response.get("structuredError"@);
            &&& says(inner, text) ==> error_message(response) == text
            &&& inner == Some(structured) && structured is Object && says(
                structured.get("message"@),
                text,
            ) ==> error_message(response) == trimmed(text)
            &&& inner == Some(structured) && structured is Object && silent(
                structured.get("message"@),
            ) && says(structured.get("error"@), text) ==> error_message(response) == trimmed(text)
            &&& inner == Some(structured) && structured is Object && silent(
                structured.get("message"@),
            ) && silent(structured.get("error"@)) && says(response.get("error"@), text)
                ==> error_message(response) == trimmed(text)
            &&& silent(inner) && !(inner matches Some(ValueView::Object(_))) && says(
                response.get("error"@),
                text,
            ) ==> error_message(response) == trimmed(text)
            &&& silent(inner) && !(inner matches Some(ValueView::Object(_))) && silent(
                response.get("error"@),
            ) ==> error_message(response) == "unknown error"@
        }),
{
}

/// The JSON written for a bundle holds its signature and every one of its spends, in order.
pub proof fn law_json_of_a_bundle_holds_every_spend(bundle: SpendBundle, value: Value)
    requires
        call_ensures(bundle_json, (&bundle,), value),
    ensures
        ({
            let items = value@.get("coin_spends"@);
            &&& value@.get("aggregated_signature"@) == Some(
                ValueView::String(bundle.aggregated_signature@),
            )
            &&& items is Some && items->0 is Array
            &&& items->0->Array_0.len() == bundle.coin_spends@.len()
            &&& forall|i: int|
                0 <= i < bundle.coin_spends@.len() ==> {
                    let item = #[trigger] items->0->Array_0[i];
                    let spend = bundle.coin_spends@[i];
                    let coin = item.get("coin"@);
                    &&& item.get("puzzle_reveal"@) == Some(ValueView::String(spend.puzzle_reveal@))
                    &&& item.get("solution"@) == Some(ValueView::String(spend.solution@))
                    &&& coin is Some
                    &&& coin->0.get("amount"@) == Some(
                        ValueView::Number(NumberView::PosInt(spend.coin.amount)),
                    )
                    &&& coin->0.get("parent_coin_info"@) == Some(
                        ValueView::String(spend.coin.parent_coin_info@),
                    )
                    &&& coin->0.get("puzzle_hash"@) == Some(
                        ValueView::String(spend.coin.puzzle_hash@),
                    )
                }
        }),
{
    let spends = spends_view(bundle.coin_spends@);
    law_bundle_can_be_read_back(spends, bundle.aggregated_signature@);
    assert(spends.len() == bundle.coin_spends@.len());
    assert forall|i: int| 0 <= i < spends.len() implies spends[i] == (
    #[trigger] bundle.coin_spends@[i])@ by {}
}

/// A response is taken exactly if it says that it succeeded, whole or by the member that answers it;
/// any other is an error of the server, in its own words. An answer without the member is null.
pub proof fn law_only_a_response_that_succeeded_is_taken(
    response: Value,
    key: &str,
    whole: Result<Value, ChiaQueryError>,
    part: Result<Value, ChiaQueryError>,
)
    requires
        call_ensures(post, (response,), whole),
        call_ensures(post_extract, (response, key), part),
    ensures
        whole is Ok <==> response@.get("success"@) == Some(ValueView::Bool(true)),
        part is Ok <==> response@.get("success"@) == Some(ValueView::Bool(true)),
        whole is Ok ==> whole->Ok_0 == response,
        part is Ok && response@.get(key@) is Some ==> part->Ok_0@ == response@.get(key@)->0,
        part is Ok && response@.get(key@) is None ==> part->Ok_0@ is Null,
        whole is Err ==> whole->Err_0@ == ErrorView::CoinsetApiError(error_message(response@))
            && part->Err_0@ == whole->Err_0@,
{
}

/// A pushed transaction is admitted exactly if coinset states success, pending and failure are told
/// apart, and any other status is told as it is and means nothing.
pub proof fn law_only_stated_success_is_admission(response: Value, status: TxStatus)
    requires
        call_ensures(pushed, (&response,), status),
    ensures
        status.inclusion is Admitted <==> response@.get("status"@) == Some(
            ValueView::String("SUCCESS"@),
        ),
        status.inclusion is NotAdmitted <==> response@.get("status"@) == Some(
            ValueView::String("PENDING"@),
        ),
        status.inclusion is Failed <==> response@.get("status"@) == Some(
            ValueView::String("FAILED"@),
        ),
        response@.get("status"@) matches Some(ValueView::String(text)) ==> status.status@ == text,
        status.success,
        status.error is None,
{
    reveal_strlit("SUCCESS");
    reveal_strlit("PENDING");
    reveal_strlit("FAILED");
    reveal_strlit("UNKNOWN");
    assert("SUCCESS"@[0] == 'S' && "PENDING"@[0] == 'P');
    assert("FAILED"@[0] == 'F' && "UNKNOWN"@[0] == 'U');
}

proof fn lemma_four_members(a: MemberView, b: MemberView, c: MemberView, d: MemberView)
    requires
        a.key != b.key,
        a.key != c.key,
        a.key != d.key,
        b.key != c.key,
        b.key != d.key,
        c.key != d.key,
    ensures
        ValueView::Object(seq![a, b, c, d]).get(a.key) == Some(a.value),
        ValueView::Object(seq![a, b, c, d]).get(b.key) == Some(b.value),
        ValueView::Object(seq![a, b, c, d]).get(c.key) == Some(c.value),
        ValueView::Object(seq![a, b, c, d]).get(d.key) == Some(d.value),
        ValueView::Object(seq![a, b]).get(a.key) == Some(a.value),
        ValueView::Object(seq![a, b]).get(b.key) == Some(b.value),
        ValueView::Object(seq![a]).get(a.key) == Some(a.value),
        ValueView::Object(seq![a]).get(b.key) is None,
{
    let four = seq![a, b, c, d];
    let two = seq![a, b];
    let one = seq![a];
    crate::json::law_a_key_is_looked_up_to_the_first_member(four, a.key, 0);
    crate::json::law_a_key_is_looked_up_to_the_first_member(four, b.key, 1);
    crate::json::law_a_key_is_looked_up_to_the_first_member(four, c.key, 2);
    crate::json::law_a_key_is_looked_up_to_the_first_member(four, d.key, 3);
    crate::json::law_a_key_is_looked_up_to_the_first_member(two, a.key, 0);
    crate::json::law_a_key_is_looked_up_to_the_first_member(two, b.key, 1);
    crate::json::law_a_key_is_looked_up_to_the_first_member(one, a.key, 0);
    crate::json::law_a_key_is_looked_up_to_the_first_member(one, b.key, 0);
}

proof fn lemma_window_keys()
    ensures
        "start_height"@ != "end_height"@,
        "start_height"@ != "include_spent_coins"@,
        "end_height"@ != "include_spent_coins"@,
        forall|key: Seq<char>|
            key == "hint"@ || key == "hints"@ || key == "names"@ || key == "parent_ids"@ || key
                == "puzzle_hash"@ || key == "puzzle_hashes"@ ==> key != "start_height"@ && key
                != "end_height"@ && #[trigger] key.len() != "include_spent_coins"@.len(),
{
    reveal_strlit("start_height");
    reveal_strlit("end_height");
    reveal_strlit("include_spent_coins");
    reveal_strlit("hint");
    reveal_strlit("hints");
    reveal_strlit("names");
    reveal_strlit("parent_ids");
    reveal_strlit("puzzle_hash");
    reveal_strlit("puzzle_hashes");
    assert("start_height"@.len() == 12 && "end_height"@.len() == 10);
    assert("include_spent_coins"@.len() == 19);
    assert("hint"@.len() == 4 && "hints"@.len() == 5 && "names"@.len() == 5);
    assert("parent_ids"@.len() == 10 && "puzzle_hash"@.len() == 11);
    assert("puzzle_hashes"@.len() == 13);
    assert("parent_ids"@[0] == 'p' && "end_height"@[0] == 'e');
}

/// Whether a body asks for coins under `key`, in a window of heights and with or without spent ones.
pub open spec fn asks_for_coins(
    body: ValueView,
    key: Seq<char>,
    sought: ValueView,
    start_height: Option<u32>,
    end_height: Option<u32>,
    include_spent_coins: bool,
) -> bool {
    &&& body.get(key) == Some(sought)
    &&& body.get("start_height"@) == Some(
        match start_height {
            Some(height) => ValueView::Number(NumberView::PosInt(height as u64)),
            None => ValueView::Null,
        },
    )
    &&& body.get("end_height"@) == Some(
        match end_height {
            Some(height) => ValueView::Number(NumberView::PosInt(height as u64)),
            None => ValueView::Null,
        },
    )
    &&& body.get("include_spent_coins"@) == Some(ValueView::Bool(include_spent_coins))
}

proof fn lemma_asks_for_coins(
    request: Request,
    first: MemberView,
    start_height: Option<u32>,
    end_height: Option<u32>,
    include_spent_coins: bool,
)
    requires
        request.body@ is Object,
        request.body@->Object_0 =~= seq![
            first,
            height_member("start_height"@, start_height),
            height_member("end_height"@, end_height),
            bool_member("include_spent_coins"@, include_spent_coins),
        ],
        first.key == "hint"@ || first.key == "hints"@ || first.key == "names"@ || first.key
            == "parent_ids"@ || first.key == "puzzle_hash"@ || first.key == "puzzle_hashes"@,
    ensures
        asks_for_coins(
            request.body@,
            first.key,
            first.value,
            start_height,
            end_height,
            include_spent_coins,
        ),
{
    lemma_window_keys();
    assert(first.key.len() != "include_spent_coins"@.len());
    let b = height_member("start_height"@, start_height);
    let c = height_member("end_height"@, end_height);
    let d = bool_member("include_spent_coins"@, include_spent_coins);
    lemma_four_members(first, b, c, d);
    assert(request.body@ == ValueView::Object(seq![first, b, c, d]));
}

/// Coins are asked for by one hint or one puzzle hash as the caller gives it, in the window the caller
/// gives and with spent ones exactly if the caller wants them.
pub proof fn law_coins_are_asked_for_by_one_text<T>(
    client: CoinsetClient<T>,
    text: &str,
    start_height: Option<u32>,
    end_height: Option<u32>,
    include_spent_coins: bool,
    by_hint: Request,
    by_hash: Request,
)
    requires
        call_ensures(
            CoinsetClient::<T>::get_coin_records_by_hint,
            (&client, text, start_height, end_height, include_spent_coins),
            by_hint,
        ),
        call_ensures(
            CoinsetClient::<T>::get_coin_records_by_puzzle_hash,
            (&client, text, start_height, end_height, include_spent_coins),
            by_hash,
        ),
    ensures
        by_hint.url@ == client.base_url@ + "/"@ + "get_coin_records_by_hint"@,
        by_hint.answer matches Answer::Member(key) && key@ == "coin_records"@,
        by_hash.url@ == client.base_url@ + "/"@ + "get_coin_records_by_puzzle_hash"@,
        by_hash.answer matches Answer::Member(key) && key@ == "coin_records"@,
        asks_for_coins(
            by_hint.body@,
            "hint"@,
            ValueView::String(text@),
            start_height,
            end_height,
            include_spent_coins,
        ),
        asks_for_coins(
            by_hash.body@,
            "puzzle_hash"@,
            ValueView::String(text@),
            start_height,
            end_height,
            include_spent_coins,
        ),
{
    lemma_asks_for_coins(
        by_hint,
        text_member("hint"@, text@),
        start_height,
        end_height,
        include_spent_coins,
    );
    lemma_asks_for_coins(
        by_hash,
        text_member("puzzle_hash"@, text@),
        start_height,
        end_height,
        include_spent_coins,
    );
}

/// Coins are asked for by every one of the hints, names, parents or puzzle hashes that the caller
/// gives, in order, in the window the caller gives and with spent ones exactly if the caller wants
/// them.
pub proof fn law_coins_are_asked_for_by_every_text<T>(
    client: CoinsetClient<T>,
    texts: &[String],
    start_height: Option<u32>,
    end_height: Option<u32>,
    include_spent_coins: bool,
    by_hints: Request,
    by_names: Request,
    by_parents: Request,
    by_hashes: Request,
)
    requires
        call_ensures(
            CoinsetClient::<T>::get_coin_records_by_hints,
            (&client, texts, start_height, end_height, include_spent_coins),
            by_hints,
        ),
        call_ensures(
            CoinsetClient::<T>::get_coin_records_by_names,
            (&client, texts, start_height, end_height, include_spent_coins),
            by_names,
        ),
        call_ensures(
            CoinsetClient::<T>::get_coin_records_by_parent_ids,
            (&client, texts, start_height, end_height, include_spent_coins),
            by_parents,
        ),
        call_ensures(
            CoinsetClient::<T>::get_coin_records_by_puzzle_hashes,
            (&client, texts, start_height, end_height, include_spent_coins),
            by_hashes,
        ),
    ensures
        by_hints.url@ == client.base_url@ + "/"@ + "get_coin_records_by_hints"@,
        by_hints.answer matches Answer::Member(key) && key@ == "coin_records"@,
        by_names.url@ == client.base_url@ + "/"@ + "get_coin_records_by_names"@,
        by_names.answer matches Answer::Member(key) && key@ == "coin_records"@,
        by_parents.url@ == client.base_url@ + "/"@ + "get_coin_records_by_parent_ids"@,
        by_parents.answer matches Answer::Member(key) && key@ == "coin_records"@,
        by_hashes.url@ == client.base_url@ + "/"@ + "get_coin_records_by_puzzle_hashes"@,
        by_hashes.answer matches Answer::Member(key) && key@ == "coin_records"@,
        ({
            let sought = ValueView::Array(Seq::new(texts@.len(), |i: int| ValueView::String(texts@[i]@)));
            &&& asks_for_coins(
                by_hints.body@,
                "hints"@,
                sought,
                start_height,
                end_height,
                include_spent_coins,
            )
            &&& asks_for_coins(
                by_names.body@,
                "names"@,
                sought,
                start_height,
                end_height,
                include_spent_coins,
            )
            &&& asks_for_coins(
                by_parents.body@,
                "parent_ids"@,
                sought,
                start_height,
                end_height,
                include_spent_coins,
            )
            &&& asks_for_coins(
                by_hashes.body@,
                "puzzle_hashes"@,
                sought,
                start_height,
                end_height,
                include_spent_coins,
            )
        }),
{
    let sought = Seq::new(texts@.len(), |i: int| ValueView::String(texts@[i]@));
    assert(texts@.map_values(|t: String| ValueView::String(t@)) =~= sought);
    lemma_asks_for_coins(
        by_hints,
        texts_member("hints"@, texts@),
        start_height,
        end_height,
        include_spent_coins,
    );
    lemma_asks_for_coins(
        by_names,
        texts_member("names"@, texts@),
        start_height,
        end_height,
        include_spent_coins,
    );
    lemma_asks_for_coins(
        by_parents,
        texts_member("parent_ids"@, texts@),
        start_height,
        end_height,
        include_spent_coins,
    );
    lemma_asks_for_coins(
        by_hashes,
        texts_member("puzzle_hashes"@, texts@),
        start_height,
        end_height,
        include_spent_coins,
    );
}

/// What a block holds is asked for by its header hash, each part under its own name.
pub proof fn law_blocks_are_asked_for_by_header_hash<T>(
    client: CoinsetClient<T>,
    hash: &str,
    effects: Request,
    block: Request,
    record: Request,
    spends: Request,
    with_conditions: Request,
)
    requires
        call_ensures(CoinsetClient::<T>::get_additions_and_removals, (&client, hash), effects),
        call_ensures(CoinsetClient::<T>::get_block, (&client, hash), block),
        call_ensures(CoinsetClient::<T>::get_block_record, (&client, hash), record),
        call_ensures(CoinsetClient::<T>::get_block_spends, (&client, hash), spends),
        call_ensures(
            CoinsetClient::<T>::get_block_spends_with_conditions,
            (&client, hash),
            with_conditions,
        ),
    ensures
        effects.url@ == client.base_url@ + "/"@ + "get_additions_and_removals"@,
        effects.answer is Whole,
        block.url@ == client.base_url@ + "/"@ + "get_block"@,
        block.answer matches Answer::Member(key) && key@ == "block"@,
        record.url@ == client.base_url@ + "/"@ + "get_block_record"@,
        record.answer matches Answer::Member(key) && key@ == "block_record"@,
        spends.url@ == client.base_url@ + "/"@ + "get_block_spends"@,
        spends.answer matches Answer::Member(key) && key@ == "block_spends"@,
        with_conditions.url@ == client.base_url@ + "/"@ + "get_block_spends_with_conditions"@,
        with_conditions.answer matches Answer::Member(key) && key@ == "block_spends_with_conditions"@,
        effects.body@.get("header_hash"@) == Some(ValueView::String(hash@)),
        block.body@.get("header_hash"@) == Some(ValueView::String(hash@)),
        record.body@.get("header_hash"@) == Some(ValueView::String(hash@)),
        spends.body@.get("header_hash"@) == Some(ValueView::String(hash@)),
        with_conditions.body@.get("header_hash"@) == Some(ValueView::String(hash@)),
{
    let one = seq![text_member("header_hash"@, hash@)];
    crate::json::law_a_key_is_looked_up_to_the_first_member(one, "header_hash"@, 0);
    assert(effects.body@ == ValueView::Object(one));
    assert(block.body@ == ValueView::Object(one));
    assert(record.body@ == ValueView::Object(one));
    assert(spends.body@ == ValueView::Object(one));
    assert(with_conditions.body@ == ValueView::Object(one));
}

/// Blocks are asked for by height, or from a height up to another, with what the caller wants left out
/// of them.
pub proof fn law_blocks_are_asked_for_by_height<T>(
    client: CoinsetClient<T>,
    start: u32,
    end: u32,
    exclude_header_hash: bool,
    exclude_reorged: bool,
    record: Request,
    records: Request,
    blocks: Request,
)
    requires
        call_ensures(CoinsetClient::<T>::get_block_record_by_height, (&client, start), record),
        call_ensures(CoinsetClient::<T>::get_block_records, (&client, start, end), records),
        call_ensures(
            CoinsetClient::<T>::get_blocks,
            (&client, start, end, exclude_header_hash, exclude_reorged),
            blocks,
        ),
    ensures
        record.url@ == client.base_url@ + "/"@ + "get_block_record_by_height"@,
        record.answer matches Answer::Member(key) && key@ == "block_record"@,
        records.url@ == client.base_url@ + "/"@ + "get_block_records"@,
        records.answer matches Answer::Member(key) && key@ == "block_records"@,
        blocks.url@ == client.base_url@ + "/"@ + "get_blocks"@,
        blocks.answer matches Answer::Member(key) && key@ == "blocks"@,
        record.body@.get("height"@) == Some(ValueView::Number(NumberView::PosInt(start as u64))),
        records.body@.get("start"@) == Some(ValueView::Number(NumberView::PosInt(start as u64))),
        records.body@.get("end"@) == Some(ValueView::Number(NumberView::PosInt(end as u64))),
        blocks.body@.get("start"@) == Some(ValueView::Number(NumberView::PosInt(start as u64))),
        blocks.body@.get("end"@) == Some(ValueView::Number(NumberView::PosInt(end as u64))),
        blocks.body@.get("exclude_header_hash"@) == Some(ValueView::Bool(exclude_header_hash)),
        blocks.body@.get("exclude_reorged"@) == Some(ValueView::Bool(exclude_reorged)),
{
    reveal_strlit("start");
    reveal_strlit("end");
    reveal_strlit("exclude_header_hash");
    reveal_strlit("exclude_reorged");
    assert("start"@.len() == 5 && "end"@.len() == 3);
    assert("exclude_header_hash"@.len() == 19 && "exclude_reorged"@.len() == 15);
    let one = seq![number_member("height"@, start as u64)];
    crate::json::law_a_key_is_looked_up_to_the_first_member(one, "height"@, 0);
    let a = number_member("start"@, start as u64);
    let b = number_member("end"@, end as u64);
    let c = bool_member("exclude_header_hash"@, exclude_header_hash);
    let d = bool_member("exclude_reorged"@, exclude_reorged);
    lemma_four_members(a, b, c, d);
    assert(record.body@ == ValueView::Object(one));
    assert(records.body@ == ValueView::Object(seq![a, b]));
    assert(blocks.body@ == ValueView::Object(seq![a, b, c, d]));
}

/// A coin, its memos and what the mempool holds are asked for by the name the caller gives, and the
/// spend of a coin by its id and by the height where one is given.
pub proof fn law_coins_are_asked_for_by_name<T>(
    client: CoinsetClient<T>,
    name: &str,
    height: Option<u32>,
    coin: Request,
    memos: Request,
    item: Request,
    spend: Request,
    with_conditions: Request,
)
    requires
        call_ensures(CoinsetClient::<T>::get_coin_record_by_name, (&client, name), coin),
        call_ensures(CoinsetClient::<T>::get_memos_by_coin_name, (&client, name), memos),
        call_ensures(CoinsetClient::<T>::get_mempool_item_by_tx_id, (&client, name), item),
        call_ensures(CoinsetClient::<T>::get_puzzle_and_solution, (&client, name, height), spend),
        call_ensures(
            CoinsetClient::<T>::get_puzzle_and_solution_with_conditions,
            (&client, name, height),
            with_conditions,
        ),
    ensures
        coin.url@ == client.base_url@ + "/"@ + "get_coin_record_by_name"@,
        coin.answer matches Answer::Member(key) && key@ == "coin_record"@,
        memos.url@ == client.base_url@ + "/"@ + "get_memos_by_coin_name"@,
        memos.answer matches Answer::Member(key) && key@ == "memos"@,
        item.url@ == client.base_url@ + "/"@ + "get_mempool_item_by_tx_id"@,
        item.answer matches Answer::Member(key) && key@ == "mempool_item"@,
        spend.url@ == client.base_url@ + "/"@ + "get_puzzle_and_solution"@,
        spend.answer matches Answer::Member(key) && key@ == "coin_solution"@,
        with_conditions.url@ == client.base_url@ + "/"@ + "get_puzzle_and_solution_with_conditions"@,
        with_conditions.answer is Whole,
        coin.body@.get("name"@) == Some(ValueView::String(name@)),
        memos.body@.get("name"@) == Some(ValueView::String(name@)),
        item.body@.get("tx_id"@) == Some(ValueView::String(name@)),
        spend.body@.get("coin_id"@) == Some(ValueView::String(name@)),
        with_conditions.body@.get("coin_id"@) == Some(ValueView::String(name@)),
        spend.body@.get("height"@) == with_conditions.body@.get("height"@),
        spend.body@.get("height"@) == Some(
            match height {
                Some(h) => ValueView::Number(NumberView::PosInt(h as u64)),
                None => ValueView::Null,
            },
        ),
{
    reveal_strlit("coin_id");
    reveal_strlit("height");
    assert("coin_id"@.len() == 7 && "height"@.len() == 6);
    let named = seq![text_member("name"@, name@)];
    let listed = seq![text_member("tx_id"@, name@)];
    let spent = seq![text_member("coin_id"@, name@), height_member("height"@, height)];
    crate::json::law_a_key_is_looked_up_to_the_first_member(named, "name"@, 0);
    crate::json::law_a_key_is_looked_up_to_the_first_member(listed, "tx_id"@, 0);
    crate::json::law_a_key_is_looked_up_to_the_first_member(spent, "coin_id"@, 0);
    crate::json::law_a_key_is_looked_up_to_the_first_member(spent, "height"@, 1);
    assert(coin.body@ == ValueView::Object(named));
    assert(memos.body@ == ValueView::Object(named));
    assert(item.body@ == ValueView::Object(listed));
    assert(spend.body@ == ValueView::Object(spent));
    assert(with_conditions.body@ == ValueView::Object(spent));
}

/// What the mempool holds of a coin is asked for with spent coins or without where the caller says
/// so, and with nothing said of them otherwise. The space of the network is asked for between the
/// newer and the older block, in that order.
pub proof fn law_mempool_and_space_are_asked_for_as_given<T>(
    client: CoinsetClient<T>,
    first: &str,
    second: &str,
    include_spent_coins: Option<bool>,
    items: Request,
    space: Request,
)
    requires
        call_ensures(
            CoinsetClient::<T>::get_mempool_items_by_coin_name,
            (&client, first, include_spent_coins),
            items,
        ),
        call_ensures(CoinsetClient::<T>::get_network_space, (&client, first, second), space),
    ensures
        items.url@ == client.base_url@ + "/"@ + "get_mempool_items_by_coin_name"@,
        items.answer matches Answer::Member(key) && key@ == "mempool_items"@,
        space.url@ == client.base_url@ + "/"@ + "get_network_space"@,
        space.answer matches Answer::Member(key) && key@ == "space"@,
        items.body@.get("coin_name"@) == Some(ValueView::String(first@)),
        items.body@.get("include_spent_coins"@) == (match include_spent_coins {
            Some(included) => Some(ValueView::Bool(included)),
            None => None,
        }),
        space.body@.get("newer_block_header_hash"@) == Some(ValueView::String(first@)),
        space.body@.get("older_block_header_hash"@) == Some(ValueView::String(second@)),
{
    reveal_strlit("coin_name");
    reveal_strlit("include_spent_coins");
    reveal_strlit("newer_block_header_hash");
    reveal_strlit("older_block_header_hash");
    assert("coin_name"@.len() == 9 && "include_spent_coins"@.len() == 19);
    assert("newer_block_header_hash"@[0] == 'n' && "older_block_header_hash"@[0] == 'o');
    let named = seq![text_member("coin_name"@, first@)];
    let flagged = seq![
        text_member("coin_name"@, first@),
        bool_member("include_spent_coins"@, include_spent_coins->0),
    ];
    let pair = seq![
        text_member("newer_block_header_hash"@, first@),
        text_member("older_block_header_hash"@, second@),
    ];
    crate::json::law_a_key_is_looked_up_to_the_first_member(named, "coin_name"@, 0);
    crate::json::law_a_key_is_looked_up_to_the_first_member(named, "include_spent_coins"@, 0);
    crate::json::law_a_key_is_looked_up_to_the_first_member(flagged, "coin_name"@, 0);
    crate::json::law_a_key_is_looked_up_to_the_first_member(flagged, "include_spent_coins"@, 1);
    crate::json::law_a_key_is_looked_up_to_the_first_member(pair, "newer_block_header_hash"@, 0);
    crate::json::law_a_key_is_looked_up_to_the_first_member(pair, "older_block_header_hash"@, 1);
    assert(space.body@ == ValueView::Object(pair));
    if include_spent_coins is Some {
        assert(items.body@ == ValueView::Object(flagged));
    } else {
        assert(items.body@ == ValueView::Object(named));
    }
}

/// What is asked of the chain as a whole is asked with an empty body, and answered by its own part of
/// the response.
pub proof fn law_the_chain_is_asked_with_an_empty_body<T>(
    client: CoinsetClient<T>,
    metrics: Request,
    headers: Request,
    data: Request,
    network: Request,
    state: Request,
    items: Request,
    ids: Request,
)
    requires
        call_ensures(CoinsetClient::<T>::get_block_count_metrics, (&client,), metrics),
        call_ensures(CoinsetClient::<T>::get_unfinished_block_headers, (&client,), headers),
        call_ensures(CoinsetClient::<T>::get_aggsig_additional_data, (&client,), data),
        call_ensures(CoinsetClient::<T>::get_network_info, (&client,), network),
        call_ensures(CoinsetClient::<T>::get_blockchain_state, (&client,), state),
        call_ensures(CoinsetClient::<T>::get_all_mempool_items, (&client,), items),
        call_ensures(CoinsetClient::<T>::get_all_mempool_tx_ids, (&client,), ids),
    ensures
        metrics.url@ == client.base_url@ + "/"@ + "get_block_count_metrics"@,
        metrics.answer matches Answer::Member(key) && key@ == "metrics"@,
        headers.url@ == client.base_url@ + "/"@ + "get_unfinished_block_headers"@,
        headers.answer matches Answer::Member(key) && key@ == "headers"@,
        data.url@ == client.base_url@ + "/"@ + "get_aggsig_additional_data"@,
        data.answer matches Answer::Member(key) && key@ == "additional_data"@,
        network.url@ == client.base_url@ + "/"@ + "get_network_info"@,
        network.answer is Whole,
        state.url@ == client.base_url@ + "/"@ + "get_blockchain_state"@,
        state.answer matches Answer::Member(key) && key@ == "blockchain_state"@,
        items.url@ == client.base_url@ + "/"@ + "get_all_mempool_items"@,
        items.answer matches Answer::Member(key) && key@ == "mempool_items"@,
        ids.url@ == client.base_url@ + "/"@ + "get_all_mempool_tx_ids"@,
        ids.answer matches Answer::Member(key) && key@ == "tx_ids"@,
        metrics.body@ is Object && metrics.body@->Object_0.len() == 0,
        headers.body@ is Object && headers.body@->Object_0.len() == 0,
        data.body@ is Object && data.body@->Object_0.len() == 0,
        network.body@ is Object && network.body@->Object_0.len() == 0,
        state.body@ is Object && state.body@->Object_0.len() == 0,
        items.body@ is Object && items.body@->Object_0.len() == 0,
        ids.body@ is Object && ids.body@->Object_0.len() == 0,
{
}

/// A push carries the bundle and nothing else, and its whole response is the answer; so is that of a
/// fee estimate.
pub proof fn law_a_push_carries_the_bundle<T>(
    client: CoinsetClient<T>,
    bundle: SpendBundle,
    pushed: Request,
    times: Option<&[u64]>,
    count: Option<u64>,
    estimate: Request,
)
    requires
        call_ensures(CoinsetClient::<T>::push_tx, (&client, &bundle), pushed),
        call_ensures(
            CoinsetClient::<T>::get_fee_estimate,
            (&client, Some(&bundle), times, count),
            estimate,
        ),
    ensures
        pushed.url@ == client.base_url@ + "/"@ + "push_tx"@,
        pushed.answer is Whole,
        estimate.url@ == client.base_url@ + "/"@ + "get_fee_estimate"@,
        estimate.answer is Whole,
        pushed.body@->Object_0.len() == 1,
        pushed.body@.get("spend_bundle"@) == Some(
            bundle_value(spends_view(bundle.coin_spends@), bundle.aggregated_signature@),
        ),
        estimate.body@.get("spend_bundle"@) == pushed.body@.get("spend_bundle"@),
        estimate.body@.get("cost"@) == Some(ValueView::Number(NumberView::PosInt(1))),
{
    let one = seq![
        MemberView {
            key: "spend_bundle"@,
            value: bundle_value(spends_view(bundle.coin_spends@), bundle.aggregated_signature@),
        },
    ];
    crate::json::law_a_key_is_looked_up_to_the_first_member(one, "spend_bundle"@, 0);
    law_a_fee_estimate_asks_for_what_is_given(Some(&bundle), times, count);
    assert(pushed.body@ == ValueView::Object(one));
    assert(estimate.body@ == ValueView::Object(fee_members(Some(&bundle), times, count)));
}

} // verus!
