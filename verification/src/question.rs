//! Cards: reading them from `;`-separated sources, marking them, and finding
//! the next one that is still to be learnt.

use vstd::prelude::*;

verus! {

/// One question with its answer, and whether the learner has marked it easy.
#[derive(Clone, Debug, PartialEq, Eq)]
pub struct QuestionT {
    pub question: String,
    pub answer: String,
    pub is_easy: bool,
}

/// A card as the contracts see it.
pub ghost struct Card {
    pub question: Seq<char>,
    pub answer: Seq<char>,
    pub mastered: bool,
}

impl View for QuestionT {
    type V = Card;

    open spec fn view(&self) -> Card {
        Card { question: self.question@, answer: self.answer@, mastered: self.is_easy }
    }
}

impl DeepView for QuestionT {
    type V = Card;

    open spec fn deep_view(&self) -> Card {
        self@
    }
}

/// The rows of a `;`-separated source, in order, as the `csv` crate reads
/// them when no row is a header and rows may differ in length. A row is its
/// fields; a row that is not valid UTF-8 is `None`.
pub uninterp spec fn delimited_rows(source: Seq<u8>) -> Seq<Option<Seq<Seq<char>>>>;

/// Reads every row of a source with `csv::Reader::records`, the reader built
/// by `csv::ReaderBuilder` with `;` as the delimiter, without a header row
/// and with rows of any length. Each `csv::StringRecord` is handed out as the
/// strings of its fields, each `csv::Error` as `None`. Reading from memory,
/// the reader has nothing to fail on but the bytes themselves.
#[verifier::external_body]
fn read_rows(source: &[u8]) -> (rows: Vec<Option<Vec<String>>>)
    ensures
        rows.deep_view() == delimited_rows(source@),
{
    let mut reader = csv::ReaderBuilder::new()
        .delimiter(b';')
        .has_headers(false)
        .flexible(true)
        .from_reader(source);
    reader.records().map(|row| match row {
        Ok(record) => Some(record.iter().map(String::from).collect()),
        Err(_) => None,
    }).collect()
}

/// The card that a row makes: a row of exactly two fields is a card that is
/// not yet mastered, the first field its question, the second its answer.
/// Any other row makes none.
pub open spec fn card_of_fields(fields: Seq<Seq<char>>) -> Option<Card> {
    if fields.len() == 2 {
        Some(Card { question: fields[0], answer: fields[1], mastered: false })
    } else {
        None
    }
}

/// The card that a row makes, if the row could be read at all.
pub open spec fn card_of_row(row: Option<Seq<Seq<char>>>) -> Option<Card> {
    match row {
        Some(fields) => card_of_fields(fields),
        None => None,
    }
}

/// The cards that rows make, in the order of the rows.
pub open spec fn cards_of_rows(rows: Seq<Option<Seq<Seq<char>>>>) -> Seq<Card> {
    rows.filter_map(|row: Option<Seq<Seq<char>>>| card_of_row(row))
}

/// The cards of several sources: those of the first source, then those of
/// the second, and so on.
pub open spec fn cards_of_sources(sources: Seq<Seq<u8>>) -> Seq<Card> {
    sources.map_values(|source: Seq<u8>| cards_of_rows(delimited_rows(source))).flatten()
}

/// Whether every card is mastered.
pub open spec fn all_mastered(cards: Seq<Card>) -> bool {
    forall|k: int| 0 <= k < cards.len() ==> (#[trigger] cards[k]).mastered
}

/// The first position from `from` up to, not including, `to` whose card is
/// not mastered; `to` if there is none.
pub open spec fn first_unmastered(cards: Seq<Card>, from: int, to: int) -> int
    decreases to - from,
{
    if from >= to {
        to
    } else if !cards[from].mastered {
        from
    } else {
        first_unmastered(cards, from + 1, to)
    }
}

/// The card to show after the one at `current`: the nearest card that is not
/// mastered, looking first at the cards after `current`, then from the first
/// card up to `current` itself. Where every card is mastered it is the first
/// card.
pub open spec fn next_unmastered(cards: Seq<Card>, current: int) -> int {
    let len = cards.len() as int;
    let after = first_unmastered(cards, current + 1, len);
    let upto = if current < len {
        current + 1
    } else {
        len
    };
    let before = first_unmastered(cards, 0, upto);
    if after < len {
        after
    } else if before < upto {
        before
    } else {
        0
    }
}

/// What `first_unmastered` finds is in range, is not mastered if it is a
/// position, and has only mastered cards before it.
pub proof fn lemma_first_unmastered(cards: Seq<Card>, from: int, to: int)
    requires
        0 <= from <= to <= cards.len(),
    ensures
        from <= first_unmastered(cards, from, to) <= to,
        first_unmastered(cards, from, to) < to ==> !cards[first_unmastered(cards, from, to)].mastered,
        forall|k: int| from <= k < first_unmastered(cards, from, to) ==> (#[trigger] cards[k]).mastered,
    decreases to - from,
{
    if from < to && cards[from].mastered {
        lemma_first_unmastered(cards, from + 1, to);
    }
}

/// A card made from a row is not mastered.
pub proof fn lemma_cards_of_rows_unmastered(rows: Seq<Option<Seq<Seq<char>>>>)
    ensures
        forall|k: int| 0 <= k < cards_of_rows(rows).len() ==> !(#[trigger] cards_of_rows(
            rows,
        )[k]).mastered,
    decreases rows.len(),
{
    if rows.len() > 0 {
        let earlier = cards_of_rows(rows.drop_last());
        lemma_cards_of_rows_unmastered(rows.drop_last());
        match card_of_row(rows.last()) {
            Some(card) => {
                assert(cards_of_rows(rows) == earlier + seq![card]);
            },
            None => {
                assert(cards_of_rows(rows) == earlier);
            },
        }
    }
}

/// A card fresh from its source is not mastered.
pub proof fn lemma_cards_of_sources_unmastered(sources: Seq<Seq<u8>>)
    ensures
        forall|k: int| 0 <= k < cards_of_sources(sources).len() ==> !(#[trigger] cards_of_sources(
            sources,
        )[k]).mastered,
    decreases sources.len(),
{
    let per_source = |source: Seq<u8>| cards_of_rows(delimited_rows(source));
    if sources.len() > 0 {
        let rest = sources.drop_first();
        lemma_cards_of_sources_unmastered(rest);
        lemma_cards_of_rows_unmastered(delimited_rows(sources[0]));
        assert(sources.map_values(per_source).drop_first() =~= rest.map_values(per_source));
        assert(cards_of_sources(sources) == cards_of_rows(delimited_rows(sources[0]))
            + cards_of_sources(rest));
    }
}

impl QuestionT {
    /// Reads the cards of the given sources, each the content of one
    /// `;`-separated file. Rows that do not have exactly two fields are left
    /// out, and so are rows that cannot be read.
    pub fn new(sources: &Vec<Vec<u8>>) -> (questions: Vec<QuestionT>)
        ensures
            questions.deep_view() == cards_of_sources(sources.deep_view()),
    {
        let mut questions: Vec<QuestionT> = Vec::new();
        let ghost per_source = |source: Seq<u8>| cards_of_rows(delimited_rows(source));
        let mut i: usize = 0;
        assert(sources.deep_view().take(0).map_values(per_source) =~= Seq::empty());
        assert(questions.deep_view() =~= Seq::<Card>::empty());
        while i < sources.len()
            invariant
                i <= sources.len(),
                per_source == |source: Seq<u8>| cards_of_rows(delimited_rows(source)),
                questions.deep_view() == sources.deep_view().take(i as int).map_values(
                    per_source,
                ).flatten(),
            decreases sources.len() - i,
        {
            let rows = read_rows(sources[i].as_slice());
            let ghost done = sources.deep_view().take(i as int).map_values(per_source);
            proof {
                assert(sources[i as int]@ == sources.deep_view()[i as int]);
                assert(sources.deep_view().take(i + 1).map_values(per_source) =~= done.push(
                    per_source(sources.deep_view()[i as int]),
                ));
                done.lemma_flatten_push(per_source(sources.deep_view()[i as int]));
            }
            Self::append_rows(&mut questions, &rows);
            i += 1;
        }
        assert(sources.deep_view().take(i as int) =~= sources.deep_view());
        questions
    }

    /// The cards that rows make: one for each row of exactly two fields.
    pub fn from_rows(rows: &Vec<Option<Vec<String>>>) -> (questions: Vec<QuestionT>)
        ensures
            questions.deep_view() == cards_of_rows(rows.deep_view()),
    {
        let mut questions: Vec<QuestionT> = Vec::new();
        assert(questions.deep_view() =~= Seq::<Card>::empty());
        Self::append_rows(&mut questions, rows);
        questions
    }

    /// Adds the cards that rows make to the end of `questions`.
    fn append_rows(questions: &mut Vec<QuestionT>, rows: &Vec<Option<Vec<String>>>)
        ensures
            final(questions).deep_view() == old(questions).deep_view() + cards_of_rows(
                rows.deep_view(),
            ),
    {
        let ghost before = questions.deep_view();
        let ghost all = rows.deep_view();
        let ghost pick = |row: Option<Seq<Seq<char>>>| card_of_row(row);
        let mut i: usize = 0;
        assert(all.take(0).filter_map(pick) =~= Seq::empty());
        assert(questions.deep_view() =~= before + Seq::<Card>::empty());
        while i < rows.len()
            invariant
                i <= rows.len(),
                all == rows.deep_view(),
                pick == |row: Option<Seq<Seq<char>>>| card_of_row(row),
                questions.deep_view() == before + all.take(i as int).filter_map(pick),
            decreases rows.len() - i,
        {
            proof {
                all.lemma_filter_map_take_succ(pick, i as int);
                assert(all[i as int] == rows[i as int].deep_view());
            }
            let ghost so_far = questions.deep_view();
            if let Some(record) = &rows[i] {
                if let Some(question) = Self::parse_record(record) {
                    questions.push(question);
                    assert(questions.deep_view() =~= so_far + seq![question@]);
                }
            }
            i += 1;
        }
        assert(all.take(i as int) =~= all);
    }

    /// The card that the fields of one row make.
    pub fn parse_record(record: &Vec<String>) -> (parsed: Option<QuestionT>)
        ensures
            parsed.deep_view() == card_of_fields(record.deep_view()),
    {
        if record.len() == 2 {
            let question = record[0].clone();
            let answer = record[1].clone();
            Some(QuestionT { question, answer, is_easy: false })
        } else {
            None
        }
    }

    /// Marks the card as one that the learner finds easy.
    pub fn mark_as_easy(&mut self)
        ensures
            final(self)@ == (Card { mastered: true, ..old(self)@ }),
        no_unwind
    {
        self.is_easy = true;
    }

    /// The position of the card to show after the one at `current_index`.
    /// The cards themselves are left as they are.
    pub fn next(questions: &mut Vec<QuestionT>, current_index: usize) -> (next: Option<usize>)
        ensures
            *final(questions) == *old(questions),
            next matches Some(index) && index == next_unmastered(
                old(questions).deep_view(),
                current_index as int,
            ),
        no_unwind
    {
        let ghost cards = questions.deep_view();
        let len = questions.len();
        let upto = if current_index < len {
            current_index + 1
        } else {
            len
        };
        proof {
            lemma_first_unmastered(cards, upto as int, len as int);
            lemma_first_unmastered(cards, 0, upto as int);
        }
        let after = Self::scan(questions, upto, len);
        if after < len {
            return Some(after);
        }
        let before = Self::scan(questions, 0, upto);
        if before < upto {
            Some(before)
        } else {
            Some(0)
        }
    }

    /// The first position in `from .. to` whose card is not marked easy, or
    /// `to`.
    fn scan(questions: &Vec<QuestionT>, from: usize, to: usize) -> (found: usize)
        requires
            from <= to <= questions.len(),
        ensures
            found == first_unmastered(questions.deep_view(), from as int, to as int),
        no_unwind
    {
        let ghost cards = questions.deep_view();
        let mut i = from;
        while i < to
            invariant
                from <= i <= to <= questions.len(),
                cards == questions.deep_view(),
                first_unmastered(cards, from as int, to as int) == first_unmastered(
                    cards,
                    i as int,
                    to as int,
                ),
            decreases to - i,
        {
            assert(cards[i as int] == questions[i as int]@);
            if !questions[i].is_easy {
                return i;
            }
            i += 1;
        }
        i
    }

    /// Whether every card is marked easy.
    pub fn check_if_all_questions_easy(questions: &Vec<QuestionT>) -> (all: bool)
        ensures
            all == all_mastered(questions.deep_view()),
        no_unwind
    {
        let ghost cards = questions.deep_view();
        let mut i: usize = 0;
        while i < questions.len()
            invariant
                i <= questions.len(),
                cards == questions.deep_view(),
                forall|k: int| 0 <= k < i ==> (#[trigger] cards[k]).mastered,
            decreases questions.len() - i,
        {
            assert(cards[i as int] == questions[i as int]@);
            if questions[i].is_easy == false {
                return false;
            }
            i += 1;
        }
        true
    }
}

} // verus!
