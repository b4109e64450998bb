//! What one peer's word is worth once the others have been asked.
//!
//! Every answer is put to every independent peer, and nothing is decided before all of them have
//! spoken: otherwise whichever peer is fastest would decide. One contradiction outranks any amount
//! of agreement, because nothing in two answers says which to believe. A peer that fails to answer
//! has agreed to nothing.

use vstd::prelude::*;

use crate::address::SocketAddr;
use crate::claim::ChainClaim;
use crate::text::{decimal, decimal_text, joined, list_text};
use crate::types::{
    records_view, texts_view, ChiaQueryError, CoinRecord, ErrorView, RecordView,
};

use super::plurality::CORROBORATION_FLOOR;
use super::pool::CorroborationReadiness;
use super::set_agreement::{
    as_at, claims_of, common_height, contradiction, contradicts, existed_at, fingerprint,
    law_agreement_is_set_equality, law_common_height_is_the_highest_settled_by_all, normalise_at, normalised, project, settled_height, wanted,
    HeightedSet, SetAnswer, SetProjection,
};

verus! {

/// What the peers established about a thing that may or may not exist.
#[derive(Debug, PartialEq, Eq)]
pub enum OptAnswer<T> {
    /// It exists, and enough independent peers claim the same of it.
    Found(T),
    /// It exists on one peer's word. Not evidence about the chain.
    UncorroboratedFound(T),
    /// It does not exist, and enough independent peers say so.
    CorroboratedAbsent,
    /// It does not exist on one peer's word.
    UncorroboratedAbsent,
}

/// What a peer said when an answer was put to it.
#[derive(Debug, PartialEq, Eq)]
pub enum Word {
    /// It has the thing, and claims this of it.
    Present(String),
    Absent,
    /// It did not answer.
    Failed,
}

/// [`Word`] with its text as characters.
#[verifier::ext_equal]
pub enum WordView {
    Present(Seq<char>),
    Absent,
    Failed,
}

impl View for Word {
    type V = WordView;

    open spec fn view(&self) -> WordView {
        match *self {
            Word::Present(claim) => WordView::Present(claim@),
            Word::Absent => WordView::Absent,
            Word::Failed => WordView::Failed,
        }
    }
}

/// One independent peer's answer to the question another peer has answered.
#[derive(Debug, PartialEq, Eq)]
pub struct Voice {
    pub address: SocketAddr,
    /// How the peer is named in messages.
    pub name: String,
    pub word: Word,
}

/// [`Voice`] with its texts as characters.
#[verifier::ext_equal]
pub struct VoiceView {
    pub address: SocketAddr,
    pub name: Seq<char>,
    pub word: WordView,
}

impl View for Voice {
    type V = VoiceView;

    open spec fn view(&self) -> VoiceView {
        VoiceView { address: self.address, name: self.name@, word: self.word@ }
    }
}

/// What an outcome says.
pub open spec fn word_of<T: ChainClaim>(
    outcome: Result<Option<T>, ChiaQueryError>,
) -> WordView {
    match outcome {
        Ok(Some(found)) => WordView::Present(found.claim()),
        Ok(None) => WordView::Absent,
        Err(_) => WordView::Failed,
    }
}

impl Voice {
    /// What came back of asking the peer at `address`. One whose read failed said nothing.
    pub fn heard<T: ChainClaim>(
        address: SocketAddr,
        name: String,
        outcome: &Result<Option<T>, ChiaQueryError>,
    ) -> (voice: Self)
        ensures
            voice@ == (VoiceView { address, name: name@, word: word_of(*outcome) }),
    {
        let word = match outcome {
            Ok(Some(found)) => Word::Present(found.chain_claim()),
            Ok(None) => Word::Absent,
            Err(_) => Word::Failed,
        };
        Voice { address, name, word }
    }
}

/// An answer that is one peer's.
pub trait Speaker: Sized {
    /// Where the peer is held.
    spec fn speaker(&self) -> SocketAddr;

    /// Where the peer is held.
    fn held_at(&self) -> (address: SocketAddr)
        ensures
            address == self.speaker(),
    ;
}

impl Speaker for Voice {
    open spec fn speaker(&self) -> SocketAddr {
        self.address
    }

    fn held_at(&self) -> (address: SocketAddr) {
        self.address
    }
}

/// The peers that `voices` are of, in order.
pub open spec fn speakers<V: Speaker>(voices: Seq<V>) -> Seq<SocketAddr> {
    voices.map_values(|v: V| v.speaker())
}

/// Whether each of `voices` is of another one of the peers at `others`.
pub open spec fn speak_for<V: Speaker>(others: Seq<SocketAddr>, voices: Seq<V>) -> bool {
    &&& speakers(voices).no_duplicates()
    &&& forall|i: int| 0 <= i < voices.len() ==> others.contains((#[trigger] voices[i]).speaker())
}

/// Those of `voices` that count, in order: of each peer at `others` the first, and of any other
/// peer none.
pub open spec fn heard<V: Speaker>(others: Seq<SocketAddr>, voices: Seq<V>) -> Seq<V>
    decreases voices.len(),
{
    if voices.len() == 0 {
        Seq::empty()
    } else {
        let before = heard(others, voices.drop_last());
        if others.contains(voices.last().speaker()) && !speakers(before).contains(
            voices.last().speaker(),
        ) {
            before.push(voices.last())
        } else {
            before
        }
    }
}

/// Whether `address` is one of `addresses`.
fn is_among(addresses: &[SocketAddr], address: SocketAddr) -> (found: bool)
    ensures
        found == addresses@.contains(address),
{
    let mut i: usize = 0;
    while i < addresses.len()
        invariant
            i <= addresses.len(),
            forall|j: int| 0 <= j < i ==> addresses@[j] != address,
        decreases addresses.len() - i,
    {
        if addresses[i] == address {
            return true;
        }
        i = i + 1;
    }
    false
}

/// Leaves out the voices that do not count: those of peers that are not at `others`, and any but
/// the first of one peer.
pub fn hear<V: Speaker>(others: &[SocketAddr], voices: Vec<V>) -> (kept: Vec<V>)
    ensures
        kept@ == heard(others@, voices@),
{
    let ghost all = voices@;
    let ghost mut taken: int = 0;
    let mut left = voices;
    let mut spoken: Vec<SocketAddr> = Vec::new();
    assert(all.take(0) =~= Seq::<V>::empty());
    assert(left@ =~= heard(others@, all.take(0)) + all.skip(0));
    assert(speakers(heard(others@, all.take(0))) =~= Seq::<SocketAddr>::empty());
    while spoken.len() < left.len()
        invariant
            0 <= taken <= all.len(),
            left@ == heard(others@, all.take(taken)) + all.skip(taken),
            spoken@ == speakers(heard(others@, all.take(taken))),
        decreases all.len() - taken,
    {
        let ghost before = heard(others@, all.take(taken));
        let i: usize = spoken.len();
        assert(left@[i as int] == all[taken]);
        assert(all.take(taken + 1).drop_last() =~= all.take(taken));
        let address = left[i].held_at();
        if is_among(others, address) && !is_among(spoken.as_slice(), address) {
            spoken.push(address);
            assert(speakers(before.push(all[taken])) =~= speakers(before).push(address));
            assert(left@ =~= before.push(all[taken]) + all.skip(taken + 1));
        } else {
            let _ = left.remove(i);
            assert(left@ =~= before + all.skip(taken + 1));
        }
        proof {
            taken = taken + 1;
        }
    }
    assert(all.skip(taken).len() == 0);
    assert(all.take(taken) =~= all);
    assert(left@ =~= heard(others@, all));
    left
}

/// The voices that count are each of another one of the peers at `others`, and each was handed in.
pub proof fn law_heard_voices_speak_for_others<V: Speaker>(
    others: Seq<SocketAddr>,
    voices: Seq<V>,
)
    ensures
        speak_for(others, heard(others, voices)),
        forall|i: int|
            0 <= i < heard(others, voices).len() ==> voices.contains(
                #[trigger] heard(others, voices)[i],
            ),
    decreases voices.len(),
{
    let all = heard(others, voices);
    if voices.len() > 0 {
        let init = voices.drop_last();
        let before = heard(others, init);
        law_heard_voices_speak_for_others(others, init);
        assert forall|i: int| 0 <= i < before.len() implies voices.contains(
            #[trigger] before[i],
        ) by {
            let k = choose|k: int| 0 <= k < init.len() && init[k] == before[i];
            assert(voices[k] == before[i]);
        }
        if all.len() > before.len() {
            assert(voices[voices.len() - 1] == voices.last());
            assert(speakers(all) =~= speakers(before).push(voices.last().speaker()));
        }
    }
}

/// Where each voice is of another one of the peers at `others`, every one of them counts.
pub proof fn law_every_voice_of_a_round_counts<V: Speaker>(others: Seq<SocketAddr>, voices: Seq<V>)
    requires
        speak_for(others, voices),
    ensures
        heard(others, voices) == voices,
    decreases voices.len(),
{
    if voices.len() > 0 {
        let init = voices.drop_last();
        let end = voices.len() - 1;
        assert(speakers(init) =~= speakers(voices).drop_last());
        assert forall|i: int| 0 <= i < init.len() implies others.contains(
            (#[trigger] init[i]).speaker(),
        ) by {
            assert(init[i] == voices[i]);
        }
        law_every_voice_of_a_round_counts(others, init);
        assert(others.contains(voices[end].speaker()));
        if speakers(init).contains(voices.last().speaker()) {
            let k = choose|k: int|
                0 <= k < init.len() && speakers(init)[k] == voices.last().speaker();
            assert(speakers(voices)[k] == speakers(voices)[end]);
        }
        assert(init.push(voices.last()) =~= voices);
    } else {
        assert(heard(others, voices) =~= voices);
    }
}

/// The views of `voices`, in order.
pub open spec fn voices_view(voices: Seq<Voice>) -> Seq<VoiceView> {
    voices.map_values(|v: Voice| v@)
}

/// Whether a round in which `agreed` peers agreed may be reported as corroborated: the pool held
/// enough independent peers before the round, and enough of them agreed in it.
pub open spec fn is_corroborated(readiness: CorroborationReadiness, agreed: int) -> bool {
    readiness is Armed && agreed >= CORROBORATION_FLOOR
}

/// Whether a round in which `agreed` peers agreed may be reported as corroborated.
pub fn corroborated(readiness: CorroborationReadiness, agreed: usize) -> (enough: bool)
    ensures
        enough == is_corroborated(readiness, agreed as int),
{
    match readiness {
        CorroborationReadiness::Armed { .. } => agreed >= CORROBORATION_FLOOR,
        CorroborationReadiness::Insufficient { .. } => false,
    }
}

/// Whether a peer did not answer.
pub open spec fn is_silent() -> spec_fn(VoiceView) -> bool {
    |v: VoiceView| v.word is Failed
}

/// Whether a peer said exactly `word`.
pub open spec fn says(word: WordView) -> spec_fn(VoiceView) -> bool {
    |v: VoiceView| v.word == word
}

/// How `voice` contradicts the peer `asked`, which said `word`.
pub open spec fn dissent(asked: Seq<char>, word: WordView, voice: VoiceView) -> Option<Seq<char>> {
    match (word, voice.word) {
        (_, WordView::Failed) => None,
        (WordView::Present(claim), WordView::Present(other)) => if claim == other {
            None
        } else {
            Some(
                "peer "@ + asked + " claims `"@ + claim + "`, peer "@ + voice.name + " claims `"@
                    + other + "`"@,
            )
        },
        (WordView::Present(_), WordView::Absent) => Some(
            "peer "@ + asked + " reports present, peer "@ + voice.name + " reports absent"@,
        ),
        (_, WordView::Present(_)) => Some(
            "peer "@ + asked + " reports absent, peer "@ + voice.name + " reports present"@,
        ),
        (_, WordView::Absent) => None,
    }
}

/// How the first of `voices` to contradict the peer `asked` does so.
pub open spec fn first_dissent(asked: Seq<char>, word: WordView, voices: Seq<VoiceView>) -> Option<
    Seq<char>,
>
    decreases voices.len(),
{
    if voices.len() == 0 {
        None
    } else {
        match first_dissent(asked, word, voices.drop_last()) {
            Some(detail) => Some(detail),
            None => dissent(asked, word, voices.last()),
        }
    }
}

/// How a thing that the peer `asked` reports with `claim` is graded by `voices`.
pub open spec fn graded_presence<T>(
    found: T,
    asked: Seq<char>,
    claim: Seq<char>,
    readiness: CorroborationReadiness,
    voices: Seq<VoiceView>,
) -> Result<OptAnswer<T>, ErrorView> {
    match first_dissent(asked, WordView::Present(claim), voices) {
        Some(detail) => Err(ErrorView::SourcesDisagree(detail)),
        None => if is_corroborated(
            readiness,
            voices.filter(says(WordView::Present(claim))).len() as int,
        ) {
            Ok(OptAnswer::Found(found))
        } else {
            Ok(OptAnswer::UncorroboratedFound(found))
        },
    }
}

/// How an absence that the peer `asked` reports is graded by `voices`.
pub open spec fn graded_absence<T>(
    asked: Seq<char>,
    readiness: CorroborationReadiness,
    voices: Seq<VoiceView>,
) -> Result<OptAnswer<T>, ErrorView> {
    match first_dissent(asked, WordView::Absent, voices) {
        Some(detail) => Err(ErrorView::SourcesDisagree(detail)),
        None => if is_corroborated(readiness, voices.filter(says(WordView::Absent)).len() as int) {
            Ok(OptAnswer::CorroboratedAbsent)
        } else {
            Ok(OptAnswer::UncorroboratedAbsent)
        },
    }
}

/// The peers of `voices` that did not answer, in order.
pub open spec fn silent_addresses(voices: Seq<VoiceView>) -> Seq<SocketAddr> {
    voices.filter(is_silent()).map_values(|v: VoiceView| v.address)
}

/// The peers that did not answer: each is to be dropped, whatever the grade.
pub fn silent(voices: &[Voice]) -> (addresses: Vec<SocketAddr>)
    ensures
        addresses@ == silent_addresses(voices_view(voices@)),
{
    let ghost all = voices_view(voices@);
    let mut addresses: Vec<SocketAddr> = Vec::new();
    let mut i: usize = 0;
    proof {
        reveal(Seq::filter);
    }
    while i < voices.len()
        invariant
            i <= voices.len(),
            all == voices_view(voices@),
            addresses@ == silent_addresses(all.take(i as int)),
        decreases voices.len() - i,
    {
        proof {
            assert(all.take(i + 1) =~= all.take(i as int).push(all[i as int]));
            all.take(i as int).lemma_filter_push(all[i as int], is_silent());
        }
        match &voices[i].word {
            Word::Failed => {
                assert(silent_addresses(all.take(i + 1)) =~= silent_addresses(
                    all.take(i as int),
                ).push(voices@[i as int].address));
                addresses.push(voices[i].address);
            },
            _ => {},
        }
        i = i + 1;
    }
    assert(all.take(i as int) =~= all);
    addresses
}

fn say_other_claim(asked: &str, claim: &String, name: &String, other: &String) -> (detail: String)
    ensures
        detail@ == "peer "@ + asked@ + " claims `"@ + claim@ + "`, peer "@ + name@ + " claims `"@
            + other@ + "`"@,
{
    String::from_str("peer ").concat(asked).concat(" claims `").concat(claim.as_str()).concat(
        "`, peer ",
    ).concat(name.as_str()).concat(" claims `").concat(other.as_str()).concat("`")
}

fn say_present_absent(asked: &str, name: &String) -> (detail: String)
    ensures
        detail@ == "peer "@ + asked@ + " reports present, peer "@ + name@ + " reports absent"@,
{
    String::from_str("peer ").concat(asked).concat(" reports present, peer ").concat(
        name.as_str(),
    ).concat(" reports absent")
}

fn say_absent_present(asked: &str, name: &String) -> (detail: String)
    ensures
        detail@ == "peer "@ + asked@ + " reports absent, peer "@ + name@ + " reports present"@,
{
    String::from_str("peer ").concat(asked).concat(" reports absent, peer ").concat(
        name.as_str(),
    ).concat(" reports present")
}

/// Counts the agreeing voices, and tells how the first dissenting one dissents.
fn tally(asked: &str, word: &Word, voices: &[Voice]) -> (counted: (usize, Option<String>))
    requires
        !(word is Failed),
    ensures
        counted.0 == voices_view(voices@).filter(says(word@)).len(),
        match counted.1 {
            Some(detail) => first_dissent(asked@, word@, voices_view(voices@)) == Some(detail@),
            None => first_dissent(asked@, word@, voices_view(voices@)) is None,
        },
{
    let ghost all = voices_view(voices@);
    let mut agreed: usize = 0;
    let mut detail: Option<String> = None;
    let mut i: usize = 0;
    proof {
        reveal(Seq::filter);
    }
    while i < voices.len()
        invariant
            i <= voices.len(),
            all == voices_view(voices@),
            !(word is Failed),
            agreed <= i,
            agreed == all.take(i as int).filter(says(word@)).len(),
            match detail {
                Some(text) => first_dissent(asked@, word@, all.take(i as int)) == Some(text@),
                None => first_dissent(asked@, word@, all.take(i as int)) is None,
            },
        decreases voices.len() - i,
    {
        let ghost before = all.take(i as int);
        proof {
            assert(all.take(i + 1) =~= before.push(all[i as int]));
            before.lemma_filter_push(all[i as int], says(word@));
            assert(all.take(i + 1).drop_last() =~= before);
            assert(all.take(i + 1).last() == voices@[i as int]@);
        }
        let voice = &voices[i];
        let said: Option<String> = match (word, &voice.word) {
            (Word::Present(claim), Word::Present(other)) => if *claim == *other {
                agreed = agreed + 1;
                None
            } else {
                Some(say_other_claim(asked, claim, &voice.name, other))
            },
            (Word::Present(_), Word::Absent) => Some(say_present_absent(asked, &voice.name)),
            (Word::Absent, Word::Present(_)) => Some(say_absent_present(asked, &voice.name)),
            (Word::Absent, Word::Absent) => {
                agreed = agreed + 1;
                None
            },
            _ => None,
        };
        if detail.is_none() {
            detail = said;
        }
        i = i + 1;
    }
    assert(all.take(i as int) =~= all);
    (agreed, detail)
}

/// Grades a thing that the peer `asked` reports.
pub fn corroborate_presence<T: ChainClaim>(
    found: T,
    asked: &str,
    readiness: CorroborationReadiness,
    voices: &[Voice],
) -> (answer: Result<OptAnswer<T>, ChiaQueryError>)
    ensures
        match answer {
            Ok(graded) => graded_presence(
                found,
                asked@,
                found.claim(),
                readiness,
                voices_view(voices@),
            ) == Ok::<OptAnswer<T>, ErrorView>(graded),
            Err(e) => graded_presence(
                found,
                asked@,
                found.claim(),
                readiness,
                voices_view(voices@),
            ) == Err::<OptAnswer<T>, ErrorView>(e@),
        },
{
    let word = Word::Present(found.chain_claim());
    let (agreed, detail) = tally(asked, &word, voices);
    assert(word@ == WordView::Present(found.claim()));
    if let Some(detail) = detail {
        return Err(ChiaQueryError::SourcesDisagree(detail));
    }
    if corroborated(readiness, agreed) {
        Ok(OptAnswer::Found(found))
    } else {
        Ok(OptAnswer::UncorroboratedFound(found))
    }
}

/// Grades an absence that the peer `asked` reports.
pub fn corroborate_absence<T>(asked: &str, readiness: CorroborationReadiness, voices: &[Voice]) -> (
    answer: Result<OptAnswer<T>, ChiaQueryError>)
    ensures
        match answer {
            Ok(graded) => graded_absence::<T>(asked@, readiness, voices_view(voices@)) == Ok::<
                OptAnswer<T>,
                ErrorView,
            >(graded),
            Err(e) => graded_absence::<T>(asked@, readiness, voices_view(voices@)) == Err::<
                OptAnswer<T>,
                ErrorView,
            >(e@),
        },
{
    let word = Word::Absent;
    let (agreed, detail) = tally(asked, &word, voices);
    if let Some(detail) = detail {
        return Err(ChiaQueryError::SourcesDisagree(detail));
    }
    if corroborated(readiness, agreed) {
        Ok(OptAnswer::CorroboratedAbsent)
    } else {
        Ok(OptAnswer::UncorroboratedAbsent)
    }
}

/// One independent peer's answer to a question about a set.
#[derive(Debug, PartialEq, Eq)]
pub struct SetVoice {
    pub address: SocketAddr,
    /// How the peer is named in messages.
    pub name: String,
    /// Nothing, if the peer did not answer.
    pub set: Option<HeightedSet<CoinRecord>>,
}

impl Speaker for SetVoice {
    open spec fn speaker(&self) -> SocketAddr {
        self.address
    }

    fn held_at(&self) -> (address: SocketAddr) {
        self.address
    }
}

/// [`SetVoice`] with its texts as characters.
#[verifier::ext_equal]
pub struct SetVoiceView {
    pub address: SocketAddr,
    pub name: Seq<char>,
    pub set: Option<(Seq<RecordView>, u32)>,
}

impl View for SetVoice {
    type V = SetVoiceView;

    open spec fn view(&self) -> SetVoiceView {
        SetVoiceView {
            address: self.address,
            name: self.name@,
            set: match self.set {
                Some(set) => Some((records_view(set.items@), set.as_of_height)),
                None => None,
            },
        }
    }
}

/// The views of `voices`, in order.
pub open spec fn set_voices_view(voices: Seq<SetVoice>) -> Seq<SetVoiceView> {
    voices.map_values(|v: SetVoice| v@)
}

/// Whether a peer sent a set.
pub open spec fn sent_a_set() -> spec_fn(SetVoiceView) -> bool {
    |v: SetVoiceView| v.set is Some
}

/// Whether a peer sent none.
pub open spec fn sent_no_set() -> spec_fn(SetVoiceView) -> bool {
    |v: SetVoiceView| v.set is None
}

/// The height a peer's set is a snapshot of.
pub open spec fn as_of() -> spec_fn(SetVoiceView) -> u32 {
    |v: SetVoiceView| (v.set->0).1
}

/// The heights of every source that answered: the peer that was asked, then the others.
pub open spec fn heights(first: u32, voices: Seq<SetVoiceView>) -> Seq<u32> {
    seq![first] + voices.filter(sent_a_set()).map_values(as_of())
}

/// How the set of `voice` contradicts, at `height`, what the peer `asked` claims.
pub open spec fn set_dissent(
    asked: Seq<char>,
    claims: Seq<Seq<char>>,
    height: u32,
    voice: SetVoiceView,
) -> Option<Seq<char>> {
    match voice.set {
        Some(set) => match contradicts(
            "peer "@ + asked,
            claims,
            "peer "@ + voice.name,
            claims_of(normalised(set.0, height)),
        ) {
            Some(detail) => Some("at height "@ + decimal(height as nat) + ": "@ + detail),
            None => None,
        },
        None => None,
    }
}

/// How the first of `voices` to contradict the set of the peer `asked` does so.
pub open spec fn first_set_dissent(
    asked: Seq<char>,
    claims: Seq<Seq<char>>,
    height: u32,
    voices: Seq<SetVoiceView>,
) -> Option<Seq<char>>
    decreases voices.len(),
{
    if voices.len() == 0 {
        None
    } else {
        match first_set_dissent(asked, claims, height, voices.drop_last()) {
            Some(detail) => Some(detail),
            None => set_dissent(asked, claims, height, voices.last()),
        }
    }
}

/// How a set is graded: whether it is corroborated, what the caller sees of it, and the height it
/// holds at.
#[verifier::ext_equal]
pub struct SetGrade {
    pub corroborated: bool,
    pub items: Seq<RecordView>,
    pub as_of_height: u32,
}

/// [`SetAnswer`] as a grade.
pub open spec fn grade_of(answer: SetAnswer<CoinRecord>) -> SetGrade {
    match answer {
        SetAnswer::Corroborated { items, as_of_height } => SetGrade {
            corroborated: true,
            items: records_view(items@),
            as_of_height,
        },
        SetAnswer::Uncorroborated { items, as_of_height } => SetGrade {
            corroborated: false,
            items: records_view(items@),
            as_of_height,
        },
    }
}

/// Whether the caller's window starts at or below `height`.
pub open spec fn window_has_settled(projection: SetProjection, height: u32) -> bool {
    projection.start_height matches Some(start) ==> start <= height
}

/// How the set that the peer `asked` sent is graded by `voices`.
pub open spec fn graded_set(
    asked: Seq<char>,
    readiness: CorroborationReadiness,
    items: Seq<RecordView>,
    as_of_height: u32,
    voices: Seq<SetVoiceView>,
    projection: SetProjection,
) -> Result<SetGrade, ErrorView> {
    let as_of = heights(as_of_height, voices);
    match settled_height(as_of, projection.end_height) {
        None => Err(
            ErrorView::UncorroboratedPresence(
                "no settled common height exists for the sources that answered ("@ + ("["@ + joined(
                    as_of,
                ) + "]"@) + ")"@,
            ),
        ),
        Some(height) => {
            let settled = normalised(items, height);
            match first_set_dissent(asked, claims_of(settled), height, voices) {
                Some(detail) => Err(ErrorView::SourcesDisagree(detail)),
                None => Ok(
                    SetGrade {
                        corroborated: window_has_settled(projection, height) && is_corroborated(
                            readiness,
                            voices.filter(sent_a_set()).len() as int,
                        ),
                        items: settled.filter(wanted(projection)),
                        as_of_height: height,
                    },
                ),
            }
        },
    }
}

/// The peers of `voices` that sent no set, in order.
pub open spec fn silent_set_addresses(voices: Seq<SetVoiceView>) -> Seq<SocketAddr> {
    voices.filter(sent_no_set()).map_values(|v: SetVoiceView| v.address)
}

/// The peers that sent no set: each is to be dropped, whatever the grade.
pub fn silent_sets(voices: &[SetVoice]) -> (addresses: Vec<SocketAddr>)
    ensures
        addresses@ == silent_set_addresses(set_voices_view(voices@)),
{
    let ghost all = set_voices_view(voices@);
    let mut addresses: Vec<SocketAddr> = Vec::new();
    let mut i: usize = 0;
    proof {
        reveal(Seq::filter);
    }
    while i < voices.len()
        invariant
            i <= voices.len(),
            all == set_voices_view(voices@),
            addresses@ == silent_set_addresses(all.take(i as int)),
        decreases voices.len() - i,
    {
        proof {
            assert(all.take(i + 1) =~= all.take(i as int).push(all[i as int]));
            all.take(i as int).lemma_filter_push(all[i as int], sent_no_set());
        }
        if voices[i].set.is_none() {
            assert(silent_set_addresses(all.take(i + 1)) =~= silent_set_addresses(
                all.take(i as int),
            ).push(voices@[i as int].address));
            addresses.push(voices[i].address);
        }
        i = i + 1;
    }
    assert(all.take(i as int) =~= all);
    addresses
}

/// The heights of every source that answered.
fn answered_heights(first: u32, voices: &[SetVoice]) -> (as_of_heights: Vec<u32>)
    ensures
        as_of_heights@ == heights(first, set_voices_view(voices@)),
        as_of_heights@.len() == 1 + set_voices_view(voices@).filter(sent_a_set()).len(),
{
    let ghost all = set_voices_view(voices@);
    let mut as_of_heights: Vec<u32> = Vec::new();
    as_of_heights.push(first);
    let mut i: usize = 0;
    proof {
        reveal(Seq::filter);
        assert(heights(first, all.take(0)) =~= seq![first]);
    }
    while i < voices.len()
        invariant
            i <= voices.len(),
            all == set_voices_view(voices@),
            as_of_heights@ == heights(first, all.take(i as int)),
        decreases voices.len() - i,
    {
        proof {
            assert(all.take(i + 1) =~= all.take(i as int).push(all[i as int]));
            all.take(i as int).lemma_filter_push(all[i as int], sent_a_set());
        }
        if let Some(set) = &voices[i].set {
            assert(heights(first, all.take(i + 1)) =~= heights(first, all.take(i as int)).push(
                set.as_of_height,
            ));
            as_of_heights.push(set.as_of_height);
        }
        i = i + 1;
    }
    assert(all.take(i as int) =~= all);
    as_of_heights
}

/// Tells how the first of `voices` to contradict the set of the peer `asked` does so.
fn first_contradiction(asked: &str, claims: &[String], height: u32, voices: &[SetVoice]) -> (detail:
    Option<String>)
    ensures
        match detail {
            Some(text) => first_set_dissent(
                asked@,
                texts_view(claims@),
                height,
                set_voices_view(voices@),
            ) == Some(text@),
            None => first_set_dissent(
                asked@,
                texts_view(claims@),
                height,
                set_voices_view(voices@),
            ) is None,
        },
{
    let ghost all = set_voices_view(voices@);
    let ghost own = texts_view(claims@);
    let asked_name = String::from_str("peer ").concat(asked);
    let mut i: usize = 0;
    while i < voices.len()
        invariant
            i <= voices.len(),
            all == set_voices_view(voices@),
            own == texts_view(claims@),
            asked_name@ == "peer "@ + asked@,
            first_set_dissent(asked@, own, height, all.take(i as int)) is None,
        decreases voices.len() - i,
    {
        proof {
            assert(all.take(i + 1).drop_last() =~= all.take(i as int));
            assert(all.take(i + 1).last() == voices@[i as int]@);
        }
        if let Some(set) = &voices[i].set {
            let settled = normalise_at(set.items.as_slice(), height);
            let others = fingerprint(settled.as_slice());
            let name = String::from_str("peer ").concat(voices[i].name.as_str());
            if let Some(detail) = contradiction(
                asked_name.as_str(),
                claims,
                name.as_str(),
                others.as_slice(),
            ) {
                let number = decimal_text(height as u64);
                let text = String::from_str("at height ").concat(number.as_str()).concat(
                    ": ",
                ).concat(detail.as_str());
                proof {
                    lemma_dissent_stays(asked@, own, height, all, i + 1);
                }
                return Some(text);
            }
        }
        i = i + 1;
    }
    assert(all.take(i as int) =~= all);
    None
}

proof fn lemma_dissent_stays(
    asked: Seq<char>,
    claims: Seq<Seq<char>>,
    height: u32,
    voices: Seq<SetVoiceView>,
    n: int,
)
    requires
        0 <= n <= voices.len(),
        first_set_dissent(asked, claims, height, voices.take(n)) is Some,
    ensures
        first_set_dissent(asked, claims, height, voices) == first_set_dissent(
            asked,
            claims,
            height,
            voices.take(n),
        ),
    decreases voices.len(),
{
    if n == voices.len() {
        assert(voices.take(n) =~= voices);
    } else {
        let init = voices.drop_last();
        assert(init.take(n) =~= voices.take(n));
        lemma_dissent_stays(asked, claims, height, init, n);
    }
}

/// Grades the set that the peer `asked` sent.
///
/// Every set is as its source sent it: what the caller wants to see is cut out here, after the
/// sets have been compared.
pub fn corroborate_set(
    asked: &str,
    readiness: CorroborationReadiness,
    first: HeightedSet<CoinRecord>,
    voices: &[SetVoice],
    projection: SetProjection,
) -> (answer: Result<SetAnswer<CoinRecord>, ChiaQueryError>)
    ensures
        match answer {
            Ok(graded) => graded_set(
                asked@,
                readiness,
                records_view(first.items@),
                first.as_of_height,
                set_voices_view(voices@),
                projection,
            ) == Ok::<SetGrade, ErrorView>(grade_of(graded)),
            Err(e) => graded_set(
                asked@,
                readiness,
                records_view(first.items@),
                first.as_of_height,
                set_voices_view(voices@),
                projection,
            ) == Err::<SetGrade, ErrorView>(e@),
        },
{
    let as_of_heights = answered_heights(first.as_of_height, voices);
    let agreed: usize = as_of_heights.len() - 1;
    let height: u32 = match common_height(as_of_heights.as_slice(), projection.end_height) {
        Some(height) => height,
        None => {
            let listed = list_text(as_of_heights.as_slice());
            let message = String::from_str(
                "no settled common height exists for the sources that answered (",
            ).concat(listed.as_str()).concat(")");
            return Err(ChiaQueryError::UncorroboratedPresence(message));
        },
    };
    let settled = normalise_at(first.items.as_slice(), height);
    let claims = fingerprint(settled.as_slice());
    if let Some(detail) = first_contradiction(asked, claims.as_slice(), height, voices) {
        return Err(ChiaQueryError::SourcesDisagree(detail));
    }
    let items = project(settled, projection);
    let settled_window: bool = match projection.start_height {
        Some(start) => start <= height,
        None => true,
    };
    if settled_window && corroborated(readiness, agreed) {
        Ok(SetAnswer::Corroborated { items, as_of_height: height })
    } else {
        Ok(SetAnswer::Uncorroborated { items, as_of_height: height })
    }
}

proof fn lemma_first_dissent(asked: Seq<char>, word: WordView, voices: Seq<VoiceView>)
    ensures
        first_dissent(asked, word, voices) is Some <==> exists|i: int|
            0 <= i < voices.len() && dissent(asked, word, #[trigger] voices[i]) is Some,
    decreases voices.len(),
{
    if voices.len() > 0 {
        let init = voices.drop_last();
        lemma_first_dissent(asked, word, init);
        if first_dissent(asked, word, init) is Some {
            let i = choose|i: int|
                0 <= i < init.len() && dissent(asked, word, #[trigger] init[i]) is Some;
            assert(voices[i] == init[i]);
        } else if dissent(asked, word, voices.last()) is Some {
            assert(voices[voices.len() - 1] == voices.last());
        } else {
            assert forall|i: int| 0 <= i < voices.len() implies dissent(
                asked,
                word,
                #[trigger] voices[i],
            ) is None by {
                if i < init.len() {
                    assert(init[i] == voices[i]);
                }
            }
        }
    }
}

/// One contradiction outranks any amount of agreement, and nothing else fails a round: a graded
/// answer is an error exactly when some peer contradicts it.
pub proof fn law_contradiction_outranks_agreement<T>(
    found: T,
    asked: Seq<char>,
    claim: Seq<char>,
    readiness: CorroborationReadiness,
    voices: Seq<VoiceView>,
)
    ensures
        graded_presence(found, asked, claim, readiness, voices) is Err <==> exists|i: int|
            0 <= i < voices.len() && ((#[trigger] voices[i]).word is Absent || (
            voices[i].word is Present && voices[i].word->0 != claim)),
        graded_absence::<T>(asked, readiness, voices) is Err <==> exists|i: int|
            0 <= i < voices.len() && (#[trigger] voices[i]).word is Present,
        graded_presence(found, asked, claim, readiness, voices) matches Err(e)
            ==> e is SourcesDisagree,
        graded_absence::<T>(asked, readiness, voices) matches Err(e) ==> e is SourcesDisagree,
{
    lemma_first_dissent(asked, WordView::Present(claim), voices);
    lemma_first_dissent(asked, WordView::Absent, voices);
}

/// A pool that did not hold enough independent peers before the round corroborates nothing,
/// however many peers agree in it.
pub proof fn law_unarmed_pool_corroborates_nothing<T>(
    found: T,
    asked: Seq<char>,
    claim: Seq<char>,
    readiness: CorroborationReadiness,
    voices: Seq<VoiceView>,
)
    requires
        !(readiness is Armed),
    ensures
        graded_presence(found, asked, claim, readiness, voices) matches Ok(answer) ==> answer
            == OptAnswer::UncorroboratedFound(found),
        graded_absence::<T>(asked, readiness, voices) matches Ok(answer) ==> answer
            is UncorroboratedAbsent,
{
}

proof fn lemma_filter_skips<A>(s: Seq<A>, keep: spec_fn(A) -> bool, p: spec_fn(A) -> bool)
    requires
        forall|x: A| #[trigger] p(x) ==> keep(x),
    ensures
        s.filter(keep).filter(p) == s.filter(p),
    decreases s.len(),
{
    reveal(Seq::filter);
    if s.len() > 0 {
        let init = s.drop_last();
        lemma_filter_skips(init, keep, p);
        assert(s =~= init.push(s.last()));
        init.lemma_filter_push(s.last(), keep);
        init.lemma_filter_push(s.last(), p);
        if keep(s.last()) {
            init.filter(keep).lemma_filter_push(s.last(), p);
        }
    }
}

/// Whether a peer answered.
pub open spec fn spoke() -> spec_fn(VoiceView) -> bool {
    |v: VoiceView| !(v.word is Failed)
}

proof fn lemma_dissent_skips_silence(asked: Seq<char>, word: WordView, voices: Seq<VoiceView>)
    ensures
        first_dissent(asked, word, voices.filter(spoke())) == first_dissent(asked, word, voices),
    decreases voices.len(),
{
    reveal(Seq::filter);
    if voices.len() > 0 {
        let init = voices.drop_last();
        lemma_dissent_skips_silence(asked, word, init);
        assert(voices =~= init.push(voices.last()));
        init.lemma_filter_push(voices.last(), spoke());
        if spoke()(voices.last()) {
            let kept = voices.filter(spoke());
            assert(kept.drop_last() =~= init.filter(spoke()));
            assert(kept.last() == voices.last());
        }
    }
}

/// Silence is not agreement: a round is graded as if the peers that failed had not been there.
pub proof fn law_silence_is_not_agreement<T>(
    found: T,
    asked: Seq<char>,
    claim: Seq<char>,
    readiness: CorroborationReadiness,
    voices: Seq<VoiceView>,
)
    ensures
        graded_presence(found, asked, claim, readiness, voices) == graded_presence(
            found,
            asked,
            claim,
            readiness,
            voices.filter(spoke()),
        ),
        graded_absence::<T>(asked, readiness, voices) == graded_absence::<T>(
            asked,
            readiness,
            voices.filter(spoke()),
        ),
{
    lemma_dissent_skips_silence(asked, WordView::Present(claim), voices);
    lemma_dissent_skips_silence(asked, WordView::Absent, voices);
    lemma_filter_skips(voices, spoke(), says(WordView::Present(claim)));
    lemma_filter_skips(voices, spoke(), says(WordView::Absent));
}

/// A corroborated answer rests on at least the floor of voices that said the same, in a pool that
/// held as many independent peers before the round.
pub proof fn law_corroboration_needs_the_floor<T>(
    found: T,
    asked: Seq<char>,
    claim: Seq<char>,
    readiness: CorroborationReadiness,
    voices: Seq<VoiceView>,
)
    ensures
        graded_presence(found, asked, claim, readiness, voices) == Ok::<OptAnswer<T>, ErrorView>(
            OptAnswer::Found(found),
        ) ==> readiness is Armed && voices.filter(says(WordView::Present(claim))).len()
            >= CORROBORATION_FLOOR,
        graded_absence::<T>(asked, readiness, voices) == Ok::<OptAnswer<T>, ErrorView>(
            OptAnswer::CorroboratedAbsent,
        ) ==> readiness is Armed && voices.filter(says(WordView::Absent)).len()
            >= CORROBORATION_FLOOR,
{
}

proof fn lemma_no_set_dissent(
    asked: Seq<char>,
    claims: Seq<Seq<char>>,
    height: u32,
    voices: Seq<SetVoiceView>,
    i: int,
)
    requires
        first_set_dissent(asked, claims, height, voices) is None,
        0 <= i < voices.len(),
    ensures
        set_dissent(asked, claims, height, voices[i]) is None,
    decreases voices.len(),
{
    if i < voices.len() - 1 {
        lemma_no_set_dissent(asked, claims, height, voices.drop_last(), i);
    }
}

/// A graded set is one that every peer that answered holds at the graded height.
pub proof fn law_graded_set_is_held_by_all(
    asked: Seq<char>,
    readiness: CorroborationReadiness,
    items: Seq<RecordView>,
    as_of_height: u32,
    voices: Seq<SetVoiceView>,
    projection: SetProjection,
    i: int,
)
    requires
        graded_set(asked, readiness, items, as_of_height, voices, projection) is Ok,
        0 <= i < voices.len(),
        voices[i].set is Some,
    ensures
        ({
            let height = graded_set(
                asked,
                readiness,
                items,
                as_of_height,
                voices,
                projection,
            )->Ok_0.as_of_height;
            claims_of(normalised(items, height)).to_set() == claims_of(
                normalised((voices[i].set->0).0, height),
            ).to_set()
        }),
{
    let height = graded_set(
        asked,
        readiness,
        items,
        as_of_height,
        voices,
        projection,
    )->Ok_0.as_of_height;
    let claims = claims_of(normalised(items, height));
    lemma_no_set_dissent(asked, claims, height, voices, i);
    law_agreement_is_set_equality(
        "peer "@ + asked,
        claims,
        "peer "@ + voices[i].name,
        claims_of(normalised((voices[i].set->0).0, height)),
    );
}

/// A corroborated set rests on at least the floor of voices, in a pool that held as many
/// independent peers before the round, and is never said of a window that has not settled.
pub proof fn law_corroborated_set_needs_the_floor(
    asked: Seq<char>,
    readiness: CorroborationReadiness,
    items: Seq<RecordView>,
    as_of_height: u32,
    voices: Seq<SetVoiceView>,
    projection: SetProjection,
)
    ensures
        graded_set(asked, readiness, items, as_of_height, voices, projection) matches Ok(grade)
            ==> grade.corroborated ==> readiness is Armed && voices.filter(sent_a_set()).len()
            >= CORROBORATION_FLOOR && window_has_settled(projection, grade.as_of_height),
{
}

/// What a graded set shows is settled: no coin created, and no spend made, above the height it
/// holds at.
pub proof fn law_graded_set_is_settled(
    asked: Seq<char>,
    readiness: CorroborationReadiness,
    items: Seq<RecordView>,
    as_of_height: u32,
    voices: Seq<SetVoiceView>,
    projection: SetProjection,
    i: int,
)
    requires
        graded_set(asked, readiness, items, as_of_height, voices, projection) is Ok,
        0 <= i < graded_set(
            asked,
            readiness,
            items,
            as_of_height,
            voices,
            projection,
        )->Ok_0.items.len(),
    ensures
        ({
            let grade = graded_set(
                asked,
                readiness,
                items,
                as_of_height,
                voices,
                projection,
            )->Ok_0;
            &&& grade.items[i].confirmed_block_index <= grade.as_of_height
            &&& grade.items[i].spent_block_index <= grade.as_of_height
        }),
{
    let grade = graded_set(asked, readiness, items, as_of_height, voices, projection)->Ok_0;
    let height = grade.as_of_height;
    let settled = normalised(items, height);
    let shown = settled.filter(wanted(projection));
    assert(shown.contains(shown[i]));
    settled.lemma_filter_contains_rev(wanted(projection), shown[i]);
    let j = choose|j: int| 0 <= j < settled.len() && settled[j] == shown[i];
    let existing = items.filter(existed_at(height));
    items.lemma_filter_pred(existed_at(height), j);
    assert(settled[j] == as_at(height)(existing[j]));
}

/// A filter keeps at least two items exactly if two places hold such an item.
proof fn lemma_two_kept<A>(s: Seq<A>, keep: spec_fn(A) -> bool)
    ensures
        s.filter(keep).len() >= 2 <==> exists|i: int, j: int|
            #![trigger s[i], s[j]]
            0 <= i < j < s.len() && keep(s[i]) && keep(s[j]),
        s.filter(keep).len() >= 1 <==> exists|i: int| 0 <= i < s.len() && keep(#[trigger] s[i]),
    decreases s.len(),
{
    reveal(Seq::filter);
    if s.len() > 0 {
        let init = s.drop_last();
        let end = s.len() - 1;
        lemma_two_kept(init, keep);
        assert(s =~= init.push(s.last()));
        init.lemma_filter_push(s.last(), keep);
        assert(forall|i: int| 0 <= i < init.len() ==> init[i] == s[i]);
        if init.filter(keep).len() >= 2 {
            let (i, j) = choose|i: int, j: int|
                #![trigger init[i], init[j]]
                0 <= i < j < init.len() && keep(init[i]) && keep(init[j]);
            assert(s[i] == init[i] && s[j] == init[j]);
        }
        if init.filter(keep).len() >= 1 {
            let i = choose|i: int| 0 <= i < init.len() && keep(#[trigger] init[i]);
            assert(s[i] == init[i]);
            if keep(s.last()) {
                assert(keep(s[i]) && keep(s[end]));
            }
        }
        if exists|i: int, j: int|
            #![trigger s[i], s[j]]
            0 <= i < j < s.len() && keep(s[i]) && keep(s[j]) {
            let (i, j) = choose|i: int, j: int|
                #![trigger s[i], s[j]]
                0 <= i < j < s.len() && keep(s[i]) && keep(s[j]);
            assert(init[i] == s[i]);
            if j < end {
                assert(init[j] == s[j]);
            }
        }
        if exists|i: int| 0 <= i < s.len() && keep(#[trigger] s[i]) {
            let i = choose|i: int| 0 <= i < s.len() && keep(#[trigger] s[i]);
            if i < end {
                assert(init[i] == s[i]);
            }
        }
    }
}

/// A thing is reported found exactly if the pool was armed, no peer contradicts it, and at least two
/// of them claim the same of it, however many more do. Where nobody contradicts and fewer than two
/// agree, or the pool was not armed, it is reported on one peer's word.
pub proof fn law_presence_is_corroborated_exactly_by_two_voices<T>(
    found: T,
    asked: Seq<char>,
    claim: Seq<char>,
    readiness: CorroborationReadiness,
    voices: Seq<VoiceView>,
)
    ensures
        ({
            let graded = graded_presence(found, asked, claim, readiness, voices);
            let uncontradicted = forall|i: int|
                0 <= i < voices.len() ==> (#[trigger] voices[i]).word is Failed || voices[i].word
                    == WordView::Present(claim);
            let two_agree = exists|i: int, j: int|
                #![trigger voices[i], voices[j]]
                0 <= i < j < voices.len() && voices[i].word == WordView::Present(claim)
                    && voices[j].word == WordView::Present(claim);
            &&& graded is Ok <==> uncontradicted
            &&& uncontradicted && readiness is Armed && two_agree ==> graded == Ok::<
                OptAnswer<T>,
                ErrorView,
            >(OptAnswer::Found(found))
            &&& uncontradicted && !(readiness is Armed && two_agree) ==> graded == Ok::<
                OptAnswer<T>,
                ErrorView,
            >(OptAnswer::UncorroboratedFound(found))
        }),
{
    lemma_first_dissent(asked, WordView::Present(claim), voices);
    lemma_two_kept(voices, says(WordView::Present(claim)));
    if exists|i: int|
        0 <= i < voices.len() && dissent(
            asked,
            WordView::Present(claim),
            #[trigger] voices[i],
        ) is Some {
        let i = choose|i: int|
            0 <= i < voices.len() && dissent(
                asked,
                WordView::Present(claim),
                #[trigger] voices[i],
            ) is Some;
        assert(!(voices[i].word is Failed) && voices[i].word != WordView::Present(claim));
    } else {
        assert forall|i: int| 0 <= i < voices.len() implies (#[trigger] voices[i]).word is Failed
            || voices[i].word == WordView::Present(claim) by {
            assert(dissent(asked, WordView::Present(claim), voices[i]) is None);
        }
    }
    if exists|i: int, j: int|
        #![trigger voices[i], voices[j]]
        0 <= i < j < voices.len() && voices[i].word == WordView::Present(claim)
            && voices[j].word == WordView::Present(claim) {
        let (i, j) = choose|i: int, j: int|
            #![trigger voices[i], voices[j]]
            0 <= i < j < voices.len() && voices[i].word == WordView::Present(claim)
                && voices[j].word == WordView::Present(claim);
        assert(says(WordView::Present(claim))(voices[i]));
        assert(says(WordView::Present(claim))(voices[j]));
    }
}

/// A thing is reported absent for certain exactly if the pool was armed, no peer has it, and at least
/// two of them say that they do not, however many more do. Where nobody has it and fewer than two
/// say so, or the pool was not armed, it is absent on one peer's word.
pub proof fn law_absence_is_corroborated_exactly_by_two_voices<T>(
    asked: Seq<char>,
    readiness: CorroborationReadiness,
    voices: Seq<VoiceView>,
)
    ensures
        ({
            let graded = graded_absence::<T>(asked, readiness, voices);
            let uncontradicted = forall|i: int|
                0 <= i < voices.len() ==> !((#[trigger] voices[i]).word is Present);
            let two_agree = exists|i: int, j: int|
                #![trigger voices[i], voices[j]]
                0 <= i < j < voices.len() && voices[i].word is Absent && voices[j].word is Absent;
            &&& graded is Ok <==> uncontradicted
            &&& uncontradicted && readiness is Armed && two_agree ==> graded == Ok::<
                OptAnswer<T>,
                ErrorView,
            >(OptAnswer::CorroboratedAbsent)
            &&& uncontradicted && !(readiness is Armed && two_agree) ==> graded == Ok::<
                OptAnswer<T>,
                ErrorView,
            >(OptAnswer::UncorroboratedAbsent)
        }),
{
    lemma_first_dissent(asked, WordView::Absent, voices);
    lemma_two_kept(voices, says(WordView::Absent));
    if exists|i: int|
        0 <= i < voices.len() && dissent(asked, WordView::Absent, #[trigger] voices[i]) is Some {
        let i = choose|i: int|
            0 <= i < voices.len() && dissent(asked, WordView::Absent, #[trigger] voices[i]) is Some;
        assert(voices[i].word is Present);
    } else {
        assert forall|i: int| 0 <= i < voices.len() implies !((
        #[trigger] voices[i]).word is Present) by {
            assert(dissent(asked, WordView::Absent, voices[i]) is None);
        }
    }
    if exists|i: int, j: int|
        #![trigger voices[i], voices[j]]
        0 <= i < j < voices.len() && voices[i].word is Absent && voices[j].word is Absent {
        let (i, j) = choose|i: int, j: int|
            #![trigger voices[i], voices[j]]
            0 <= i < j < voices.len() && voices[i].word is Absent && voices[j].word is Absent;
        assert(says(WordView::Absent)(voices[i]) && says(WordView::Absent)(voices[j]));
    }
}

/// One more voice that says the same never lowers a grade: what was corroborated stays so, and what
/// was contradicted stays that.
pub proof fn law_another_agreeing_voice_never_lowers_a_grade<T>(
    found: T,
    asked: Seq<char>,
    claim: Seq<char>,
    readiness: CorroborationReadiness,
    voices: Seq<VoiceView>,
    one: VoiceView,
)
    ensures
        one.word == WordView::Present(claim) && graded_presence(
            found,
            asked,
            claim,
            readiness,
            voices,
        ) == Ok::<OptAnswer<T>, ErrorView>(OptAnswer::Found(found)) ==> graded_presence(
            found,
            asked,
            claim,
            readiness,
            voices.push(one),
        ) == Ok::<OptAnswer<T>, ErrorView>(OptAnswer::Found(found)),
        one.word is Absent && graded_absence::<T>(asked, readiness, voices) == Ok::<
            OptAnswer<T>,
            ErrorView,
        >(OptAnswer::CorroboratedAbsent) ==> graded_absence::<T>(
            asked,
            readiness,
            voices.push(one),
        ) == Ok::<OptAnswer<T>, ErrorView>(OptAnswer::CorroboratedAbsent),
        graded_presence(found, asked, claim, readiness, voices) is Err ==> graded_presence(
            found,
            asked,
            claim,
            readiness,
            voices.push(one),
        ) is Err,
        graded_absence::<T>(asked, readiness, voices) is Err ==> graded_absence::<T>(
            asked,
            readiness,
            voices.push(one),
        ) is Err,
{
    let more = voices.push(one);
    assert(more.drop_last() =~= voices);
    voices.lemma_filter_push(one, says(WordView::Present(claim)));
    voices.lemma_filter_push(one, says(WordView::Absent));
}

proof fn lemma_heights(first: u32, voices: Seq<SetVoiceView>)
    ensures
        heights(first, voices).len() > 0,
        heights(first, voices)[0] == first,
        forall|i: int|
            0 <= i < voices.len() && (#[trigger] voices[i]).set is Some ==> heights(
                first,
                voices,
            ).contains((voices[i].set->0).1),
        forall|h: u32| #[trigger]
            heights(first, voices).contains(h) ==> h == first || exists|i: int|
                0 <= i < voices.len() && (#[trigger] voices[i]).set is Some && (
                voices[i].set->0).1 == h,
{
    let answered = voices.filter(sent_a_set());
    let all = heights(first, voices);
    assert forall|i: int| 0 <= i < voices.len() && (#[trigger] voices[i]).set is Some implies
        all.contains((voices[i].set->0).1) by {
        voices.lemma_filter_contains(sent_a_set(), i);
        let k = choose|k: int| 0 <= k < answered.len() && answered[k] == voices[i];
        assert(all[k + 1] == (voices[i].set->0).1);
    }
    assert forall|h: u32| #[trigger] all.contains(h) implies h == first || exists|i: int|
        0 <= i < voices.len() && (#[trigger] voices[i]).set is Some && (voices[i].set->0).1
            == h by {
        let k = choose|k: int| 0 <= k < all.len() && all[k] == h;
        if k > 0 {
            let v = answered[k - 1];
            assert(answered.contains(v));
            voices.lemma_filter_pred(sent_a_set(), k - 1);
            voices.lemma_filter_contains_rev(sent_a_set(), v);
            let i = choose|i: int| 0 <= i < voices.len() && voices[i] == v;
            assert(voices[i].set is Some && (voices[i].set->0).1 == h);
        }
    }
}

proof fn lemma_first_set_dissent(
    asked: Seq<char>,
    claims: Seq<Seq<char>>,
    height: u32,
    voices: Seq<SetVoiceView>,
)
    ensures
        first_set_dissent(asked, claims, height, voices) is Some <==> exists|i: int|
            0 <= i < voices.len() && set_dissent(
                asked,
                claims,
                height,
                #[trigger] voices[i],
            ) is Some,
    decreases voices.len(),
{
    if voices.len() > 0 {
        let init = voices.drop_last();
        lemma_first_set_dissent(asked, claims, height, init);
        if first_set_dissent(asked, claims, height, init) is Some {
            let i = choose|i: int|
                0 <= i < init.len() && set_dissent(asked, claims, height, #[trigger] init[i])
                    is Some;
            assert(voices[i] == init[i]);
        } else if set_dissent(asked, claims, height, voices.last()) is Some {
            assert(voices[voices.len() - 1] == voices.last());
        } else {
            assert forall|i: int| 0 <= i < voices.len() implies set_dissent(
                asked,
                claims,
                height,
                #[trigger] voices[i],
            ) is None by {
                if i < init.len() {
                    assert(init[i] == voices[i]);
                }
            }
        }
    }
}

/// A set is graded at the highest height that every source which answered lies three blocks above
/// and that does not lie beyond the window. There it is refused exactly if a source claims otherwise;
/// and it is corroborated exactly if the pool was armed, at least two peers sent a set, however many
/// more did, and the window starts no higher than that height.
pub proof fn law_set_is_corroborated_exactly_by_two_voices(
    asked: Seq<char>,
    readiness: CorroborationReadiness,
    items: Seq<RecordView>,
    as_of_height: u32,
    voices: Seq<SetVoiceView>,
    projection: SetProjection,
    height: u32,
)
    requires
        height + 3 <= as_of_height,
        forall|i: int|
            0 <= i < voices.len() && (#[trigger] voices[i]).set is Some ==> height + 3 <= (
            voices[i].set->0).1,
        projection.end_height is Some ==> height <= projection.end_height->0,
        projection.end_height == Some(height) || height + 3 == as_of_height || exists|i: int|
            0 <= i < voices.len() && (#[trigger] voices[i]).set is Some && height + 3 == (
            voices[i].set->0).1,
    ensures
        ({
            let graded = graded_set(asked, readiness, items, as_of_height, voices, projection);
            let uncontradicted = forall|i: int|
                0 <= i < voices.len() && (#[trigger] voices[i]).set is Some ==> claims_of(
                    normalised((voices[i].set->0).0, height),
                ).to_set() == claims_of(normalised(items, height)).to_set();
            let two_answered = exists|i: int, j: int|
                #![trigger voices[i], voices[j]]
                0 <= i < j < voices.len() && voices[i].set is Some && voices[j].set is Some;
            let started = projection.start_height is None || projection.start_height->0 <= height;
            &&& uncontradicted ==> graded is Ok && graded->Ok_0.as_of_height == height
            &&& uncontradicted ==> (graded->Ok_0.corroborated <==> readiness is Armed
                && two_answered && started)
            &&& uncontradicted ==> graded->Ok_0.items == normalised(items, height).filter(
                wanted(projection),
            )
            &&& !uncontradicted ==> graded is Err && graded->Err_0 is SourcesDisagree
        }),
{
    let as_of = heights(as_of_height, voices);
    lemma_heights(as_of_height, voices);
    assert forall|k: int| 0 <= k < as_of.len() implies height + 3 <= #[trigger] as_of[k] by {
        assert(as_of.contains(as_of[k]));
    }
    law_common_height_is_the_highest_settled_by_all(as_of, projection.end_height, height);
    let settled = settled_height(as_of, projection.end_height);
    assert(settled is Some && height <= settled->0);
    if height + 3 == as_of_height {
        assert(as_of[0] == as_of_height);
    } else if !(projection.end_height == Some(height)) {
        let i = choose|i: int|
            0 <= i < voices.len() && (#[trigger] voices[i]).set is Some && height + 3 == (
            voices[i].set->0).1;
        assert(as_of.contains((voices[i].set->0).1));
        let k = choose|k: int| 0 <= k < as_of.len() && as_of[k] == (voices[i].set->0).1;
        assert(settled->0 + 3 <= as_of[k]);
    }
    assert(settled->0 == height);
    let claims = claims_of(normalised(items, height));
    lemma_first_set_dissent(asked, claims, height, voices);
    assert forall|i: int| 0 <= i < voices.len() && (#[trigger] voices[i]).set is Some implies (
    set_dissent(asked, claims, height, voices[i]) is None <==> claims_of(
        normalised((voices[i].set->0).0, height),
    ).to_set() == claims.to_set()) by {
        law_agreement_is_set_equality(
            "peer "@ + asked,
            claims,
            "peer "@ + voices[i].name,
            claims_of(normalised((voices[i].set->0).0, height)),
        );
    }
    lemma_two_kept(voices, sent_a_set());
    if exists|i: int, j: int|
        #![trigger voices[i], voices[j]]
        0 <= i < j < voices.len() && voices[i].set is Some && voices[j].set is Some {
        let (i, j) = choose|i: int, j: int|
            #![trigger voices[i], voices[j]]
            0 <= i < j < voices.len() && voices[i].set is Some && voices[j].set is Some;
        assert(sent_a_set()(voices[i]) && sent_a_set()(voices[j]));
    }
    if first_set_dissent(asked, claims, height, voices) is Some {
        let i = choose|i: int|
            0 <= i < voices.len() && set_dissent(
                asked,
                claims,
                height,
                #[trigger] voices[i],
            ) is Some;
        assert(voices[i].set is Some);
    } else {
        assert forall|i: int| 0 <= i < voices.len() && (#[trigger] voices[i]).set is Some implies
            claims_of(normalised((voices[i].set->0).0, height)).to_set() == claims.to_set() by {
            assert(set_dissent(asked, claims, height, voices[i]) is None);
        }
    }
}

/// A set cannot be graded at all exactly if some source that answered lies less than three blocks
/// above the start of the chain.
pub proof fn law_set_without_a_settled_height_is_refused(
    asked: Seq<char>,
    readiness: CorroborationReadiness,
    items: Seq<RecordView>,
    as_of_height: u32,
    voices: Seq<SetVoiceView>,
    projection: SetProjection,
)
    ensures
        ({
            let graded = graded_set(asked, readiness, items, as_of_height, voices, projection);
            (graded is Err && graded->Err_0 is UncorroboratedPresence) <==> (as_of_height < 3
                || exists|i: int|
                0 <= i < voices.len() && (#[trigger] voices[i]).set is Some && (
                voices[i].set->0).1 < 3)
        }),
{
    let as_of = heights(as_of_height, voices);
    lemma_heights(as_of_height, voices);
    law_common_height_is_the_highest_settled_by_all(as_of, projection.end_height, 0);
    if settled_height(as_of, projection.end_height) is None {
        let k = choose|k: int| 0 <= k < as_of.len() && #[trigger] as_of[k] < 3;
        assert(as_of.contains(as_of[k]));
    } else {
        assert(as_of[0] == as_of_height);
        assert forall|i: int| 0 <= i < voices.len() && (#[trigger] voices[i]).set is Some implies (
        voices[i].set->0).1 >= 3 by {
            let k = choose|k: int| 0 <= k < as_of.len() && as_of[k] == (voices[i].set->0).1;
            assert(as_of[k] >= 3);
        }
    }
}

/// A peer is heard exactly if the question was put to it and it has answered.
proof fn lemma_speakers_heard<V: Speaker>(
    others: Seq<SocketAddr>,
    voices: Seq<V>,
    address: SocketAddr,
)
    ensures
        speakers(heard(others, voices)).contains(address) <==> others.contains(address) && exists|i:
            int|
            0 <= i < voices.len() && (#[trigger] voices[i]).speaker() == address,
    decreases voices.len(),
{
    let all = heard(others, voices);
    if voices.len() > 0 {
        let init = voices.drop_last();
        let before = heard(others, init);
        let last = voices.last();
        lemma_speakers_heard(others, init, address);
        lemma_speakers_heard(others, init, last.speaker());
        assert(voices[voices.len() - 1] == last);
        assert(speakers(before.push(last)) =~= speakers(before).push(last.speaker()));
        if exists|i: int| 0 <= i < voices.len() && (#[trigger] voices[i]).speaker() == address {
            let i = choose|i: int|
                0 <= i < voices.len() && (#[trigger] voices[i]).speaker() == address;
            if i < init.len() {
                assert(init[i].speaker() == address);
            }
        }
        if exists|i: int| 0 <= i < init.len() && (#[trigger] init[i]).speaker() == address {
            let i = choose|i: int| 0 <= i < init.len() && (#[trigger] init[i]).speaker() == address;
            assert(voices[i].speaker() == address);
        }
        if speakers(before).contains(address) {
            let k = choose|k: int| 0 <= k < before.len() && speakers(before)[k] == address;
            assert(speakers(all)[k] == address);
        }
        if all.len() > before.len() {
            assert(speakers(all)[before.len() as int] == last.speaker());
            if speakers(all).contains(address) {
                let k = choose|k: int| 0 <= k < all.len() && speakers(all)[k] == address;
                if k < before.len() {
                    assert(speakers(before)[k] == address);
                }
            }
        }
    } else {
        assert(speakers(all).len() == 0);
    }
}

/// A voice that comes in counts, after those that count already, exactly if the question was put
/// to its peer and that peer has not answered before.
pub proof fn law_a_peers_first_answer_counts<V: Speaker>(
    others: Seq<SocketAddr>,
    voices: Seq<V>,
    voice: V,
)
    ensures
        heard(others, Seq::<V>::empty()) == Seq::<V>::empty(),
        heard(others, voices.push(voice)) == (if others.contains(voice.speaker()) && forall|i: int|
            0 <= i < voices.len() ==> (#[trigger] voices[i]).speaker() != voice.speaker() {
            heard(others, voices).push(voice)
        } else {
            heard(others, voices)
        }),
{
    assert(voices.push(voice).drop_last() =~= voices);
    lemma_speakers_heard(others, voices, voice.speaker());
}

/// A read that failed says nothing, one that found nothing says so, and one that found something
/// says what is claimed of it.
pub proof fn law_only_a_read_that_succeeded_speaks<T: ChainClaim>(
    outcome: Result<Option<T>, ChiaQueryError>,
)
    ensures
        word_of(outcome) is Failed <==> outcome is Err,
        word_of(outcome) is Absent <==> outcome is Ok && outcome->Ok_0 is None,
        outcome is Ok && outcome->Ok_0 is Some ==> word_of(outcome) == WordView::Present(
            (outcome->Ok_0->0).claim(),
        ),
{
}

/// The peers to drop are told voice by voice: exactly those whose read failed, and of those that
/// were asked for a set exactly those that sent none.
pub proof fn law_peers_that_fail_are_dropped(
    voices: Seq<VoiceView>,
    voice: VoiceView,
    sets: Seq<SetVoiceView>,
    set: SetVoiceView,
)
    ensures
        silent_addresses(Seq::empty()) == Seq::<SocketAddr>::empty(),
        silent_addresses(voices.push(voice)) == (match voice.word {
            WordView::Failed => silent_addresses(voices).push(voice.address),
            WordView::Absent => silent_addresses(voices),
            WordView::Present(_) => silent_addresses(voices),
        }),
        silent_set_addresses(Seq::empty()) == Seq::<SocketAddr>::empty(),
        silent_set_addresses(sets.push(set)) == (match set.set {
            None => silent_set_addresses(sets).push(set.address),
            Some(_) => silent_set_addresses(sets),
        }),
{
    reveal(Seq::filter);
    assert(silent_addresses(Seq::empty()) =~= Seq::<SocketAddr>::empty());
    assert(silent_set_addresses(Seq::empty()) =~= Seq::<SocketAddr>::empty());
    voices.lemma_filter_push(voice, is_silent());
    sets.lemma_filter_push(set, sent_no_set());
    assert(silent_addresses(voices.push(voice)) =~= match voice.word {
        WordView::Failed => silent_addresses(voices).push(voice.address),
        WordView::Absent => silent_addresses(voices),
        WordView::Present(_) => silent_addresses(voices),
    });
    assert(silent_set_addresses(sets.push(set)) =~= match set.set {
        None => silent_set_addresses(sets).push(set.address),
        Some(_) => silent_set_addresses(sets),
    });
}

/// A round is refused with the words of the first peer to contradict the one that was asked: it
/// names both, and tells what each of them claims.
pub proof fn law_the_first_contradiction_is_told<T>(
    found: T,
    asked: Seq<char>,
    claim: Seq<char>,
    readiness: CorroborationReadiness,
    voices: Seq<VoiceView>,
    i: int,
)
    requires
        0 <= i < voices.len(),
        forall|k: int| 0 <= k < i ==> (#[trigger] voices[k]).word is Failed,
    ensures
        ({
            let presence = graded_presence(found, asked, claim, readiness, voices);
            let absence = graded_absence::<T>(asked, readiness, voices);
            let name = voices[i].name;
            &&& voices[i].word is Absent ==> presence is Err && presence->Err_0
                == ErrorView::SourcesDisagree(
                "peer "@ + asked + " reports present, peer "@ + name + " reports absent"@,
            )
            &&& voices[i].word matches WordView::Present(other) ==> {
                &&& absence is Err && absence->Err_0 == ErrorView::SourcesDisagree(
                    "peer "@ + asked + " reports absent, peer "@ + name + " reports present"@,
                )
                &&& other != claim ==> presence is Err && presence->Err_0
                    == ErrorView::SourcesDisagree(
                    "peer "@ + asked + " claims `"@ + claim + "`, peer "@ + name + " claims `"@
                        + other + "`"@,
                )
            }
        }),
{
    lemma_first_dissent_at(asked, WordView::Present(claim), voices, i);
    lemma_first_dissent_at(asked, WordView::Absent, voices, i);
}

/// Silence contradicts nobody, so that what follows it decides.
proof fn lemma_first_dissent_at(asked: Seq<char>, word: WordView, voices: Seq<VoiceView>, i: int)
    requires
        0 <= i < voices.len(),
        forall|k: int| 0 <= k < i ==> (#[trigger] voices[k]).word is Failed,
    ensures
        dissent(asked, word, voices[i]) is Some ==> first_dissent(asked, word, voices) == dissent(
            asked,
            word,
            voices[i],
        ),
    decreases voices.len(),
{
    let init = voices.drop_last();
    if i < init.len() {
        assert forall|k: int| 0 <= k < i implies (#[trigger] init[k]).word is Failed by {
            assert(init[k] == voices[k]);
        }
        lemma_first_dissent_at(asked, word, init, i);
    } else if dissent(asked, word, voices[i]) is Some {
        lemma_first_dissent(asked, word, init);
        if first_dissent(asked, word, init) is Some {
            let k = choose|k: int|
                0 <= k < init.len() && dissent(asked, word, #[trigger] init[k]) is Some;
            assert(voices[k].word is Failed);
        }
    }
}

/// A grade tells what the answer holds, and that it is corroborated exactly if it is said to be.
pub proof fn law_grade_tells_the_answer(answer: SetAnswer<CoinRecord>)
    ensures
        grade_of(answer).corroborated <==> answer is Corroborated,
        answer matches SetAnswer::Corroborated { items, as_of_height } ==> grade_of(answer).items
            == records_view(items@) && grade_of(answer).as_of_height == as_of_height,
        answer matches SetAnswer::Uncorroborated { items, as_of_height } ==> grade_of(answer).items
            == records_view(items@) && grade_of(answer).as_of_height == as_of_height,
{
}

/// A round may be reported as corroborated exactly if the pool was armed and two peers or more
/// agreed.
pub proof fn law_two_agreeing_peers_or_more_corroborate(
    readiness: CorroborationReadiness,
    agreed: usize,
    enough: bool,
)
    requires
        call_ensures(corroborated, (readiness, agreed), enough),
    ensures
        enough <==> readiness is Armed && agreed >= 2,
{
}

/// A set comes back as corroborated exactly if the pool was armed, two peers or more sent a set, all
/// of them claim the same of it, and the window starts no higher than the height they are compared
/// at: the highest that every source which answered lies three blocks above and that does not lie
/// beyond the window. It comes back at that height.
pub proof fn law_a_set_comes_back_graded_by_two_voices(
    asked: &str,
    readiness: CorroborationReadiness,
    first: HeightedSet<CoinRecord>,
    voices: &[SetVoice],
    projection: SetProjection,
    answer: Result<SetAnswer<CoinRecord>, ChiaQueryError>,
    height: u32,
)
    requires
        call_ensures(corroborate_set, (asked, readiness, first, voices, projection), answer),
        height + 3 <= first.as_of_height,
        forall|i: int|
            0 <= i < voices@.len() && (#[trigger] voices@[i]).set is Some ==> height + 3 <= (
            voices@[i].set->0).as_of_height,
        projection.end_height is Some ==> height <= projection.end_height->0,
        projection.end_height == Some(height) || height + 3 == first.as_of_height || exists|i: int|
            0 <= i < voices@.len() && (#[trigger] voices@[i]).set is Some && height + 3 == (
            voices@[i].set->0).as_of_height,
    ensures
        ({
            let claims = claims_of(normalised(records_view(first.items@), height)).to_set();
            let uncontradicted = forall|i: int|
                0 <= i < voices@.len() && (#[trigger] voices@[i]).set is Some ==> claims_of(
                    normalised(records_view((voices@[i].set->0).items@), height),
                ).to_set() == claims;
            let two_answered = exists|i: int, j: int|
                #![trigger voices@[i], voices@[j]]
                0 <= i < j < voices@.len() && voices@[i].set is Some && voices@[j].set is Some;
            let started = projection.start_height is None || projection.start_height->0 <= height;
            &&& answer is Ok <==> uncontradicted
            &&& answer is Err ==> answer->Err_0 is SourcesDisagree
            &&& answer matches Ok(graded) ==> (graded is Corroborated <==> readiness is Armed
                && two_answered && started)
            &&& answer matches Ok(SetAnswer::Corroborated { items, as_of_height }) ==> as_of_height
                == height && records_view(items@) == normalised(
                records_view(first.items@),
                height,
            ).filter(wanted(projection))
            &&& answer matches Ok(SetAnswer::Uncorroborated { items, as_of_height })
                ==> as_of_height == height && records_view(items@) == normalised(
                records_view(first.items@),
                height,
            ).filter(wanted(projection))
        }),
{
    let views = set_voices_view(voices@);
    assert forall|i: int| 0 <= i < voices@.len() implies (#[trigger] views[i]) == voices@[i]@ by {}
    assert forall|i: int| 0 <= i < views.len() && (#[trigger] views[i]).set is Some implies height + 3
        <= (views[i].set->0).1 by {
        assert(voices@[i].set is Some);
    }
    if exists|i: int|
        0 <= i < voices@.len() && (#[trigger] voices@[i]).set is Some && height + 3 == (
        voices@[i].set->0).as_of_height {
        let i = choose|i: int|
            0 <= i < voices@.len() && (#[trigger] voices@[i]).set is Some && height + 3 == (
            voices@[i].set->0).as_of_height;
        assert(views[i].set is Some && height + 3 == (views[i].set->0).1);
    }
    law_set_is_corroborated_exactly_by_two_voices(
        asked@,
        readiness,
        records_view(first.items@),
        first.as_of_height,
        views,
        projection,
        height,
    );
    let claims = claims_of(normalised(records_view(first.items@), height)).to_set();
    if forall|i: int|
        0 <= i < voices@.len() && (#[trigger] voices@[i]).set is Some ==> claims_of(
            normalised(records_view((voices@[i].set->0).items@), height),
        ).to_set() == claims {
        assert forall|i: int| 0 <= i < views.len() && (#[trigger] views[i]).set is Some implies
            claims_of(normalised((views[i].set->0).0, height)).to_set() == claims by {
            assert(voices@[i].set is Some);
        }
    } else {
        let i = choose|i: int|
            0 <= i < voices@.len() && (#[trigger] voices@[i]).set is Some && claims_of(
                normalised(records_view((voices@[i].set->0).items@), height),
            ).to_set() != claims;
        assert(views[i].set is Some);
    }
    if exists|i: int, j: int|
        #![trigger voices@[i], voices@[j]]
        0 <= i < j < voices@.len() && voices@[i].set is Some && voices@[j].set is Some {
        let (i, j) = choose|i: int, j: int|
            #![trigger voices@[i], voices@[j]]
            0 <= i < j < voices@.len() && voices@[i].set is Some && voices@[j].set is Some;
        assert(views[i].set is Some && views[j].set is Some);
    }
    if exists|i: int, j: int|
        #![trigger views[i], views[j]]
        0 <= i < j < views.len() && views[i].set is Some && views[j].set is Some {
        let (i, j) = choose|i: int, j: int|
            #![trigger views[i], views[j]]
            0 <= i < j < views.len() && views[i].set is Some && views[j].set is Some;
        assert(voices@[i].set is Some && voices@[j].set is Some);
    }
}

/// A set that another source contradicts is refused with the height at which they were compared.
pub proof fn law_a_contradicted_set_is_refused_at_its_height(
    asked: Seq<char>,
    claims: Seq<Seq<char>>,
    height: u32,
    voice: SetVoiceView,
)
    requires
        voice.set is Some,
    ensures
        set_dissent(asked, claims, height, voice) is None <==> claims.to_set() == claims_of(
            normalised((voice.set->0).0, height),
        ).to_set(),
        set_dissent(asked, claims, height, voice) is Some ==> exists|detail: Seq<char>|
            set_dissent(asked, claims, height, voice)->0 == #[trigger] ("at height "@ + decimal(
                height as nat,
            ) + ": "@ + detail),
{
    law_agreement_is_set_equality(
        "peer "@ + asked,
        claims,
        "peer "@ + voice.name,
        claims_of(normalised((voice.set->0).0, height)),
    );
}

/// A peer is to be dropped exactly if one of the voices is its own and says nothing.
pub proof fn law_silence_is_told_by_its_peer(
    voices: Seq<VoiceView>,
    sets: Seq<SetVoiceView>,
    address: SocketAddr,
)
    ensures
        silent_addresses(voices).contains(address) <==> exists|i: int|
            0 <= i < voices.len() && (#[trigger] voices[i]).address == address
                && voices[i].word is Failed,
        silent_set_addresses(sets).contains(address) <==> exists|i: int|
            0 <= i < sets.len() && (#[trigger] sets[i]).address == address && sets[i].set is None,
{
    let quiet = voices.filter(is_silent());
    let empty = sets.filter(sent_no_set());
    if silent_addresses(voices).contains(address) {
        let k = choose|k: int| 0 <= k < quiet.len() && silent_addresses(voices)[k] == address;
        voices.lemma_filter_pred(is_silent(), k);
        assert(quiet.contains(quiet[k]));
        voices.lemma_filter_contains_rev(is_silent(), quiet[k]);
        let i = choose|i: int| 0 <= i < voices.len() && voices[i] == quiet[k];
        assert(voices[i].address == address);
    }
    if exists|i: int|
        0 <= i < voices.len() && (#[trigger] voices[i]).address == address
            && voices[i].word is Failed {
        let i = choose|i: int|
            0 <= i < voices.len() && (#[trigger] voices[i]).address == address
                && voices[i].word is Failed;
        voices.lemma_filter_contains(is_silent(), i);
        let k = choose|k: int| 0 <= k < quiet.len() && quiet[k] == voices[i];
        assert(silent_addresses(voices)[k] == address);
    }
    if silent_set_addresses(sets).contains(address) {
        let k = choose|k: int| 0 <= k < empty.len() && silent_set_addresses(sets)[k] == address;
        sets.lemma_filter_pred(sent_no_set(), k);
        assert(empty.contains(empty[k]));
        sets.lemma_filter_contains_rev(sent_no_set(), empty[k]);
        let i = choose|i: int| 0 <= i < sets.len() && sets[i] == empty[k];
        assert(sets[i].address == address);
    }
    if exists|i: int|
        0 <= i < sets.len() && (#[trigger] sets[i]).address == address && sets[i].set is None {
        let i = choose|i: int|
            0 <= i < sets.len() && (#[trigger] sets[i]).address == address && sets[i].set is None;
        sets.lemma_filter_contains(sent_no_set(), i);
        let k = choose|k: int| 0 <= k < empty.len() && empty[k] == sets[i];
        assert(silent_set_addresses(sets)[k] == address);
    }
}

} // verus!
