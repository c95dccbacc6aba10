use vstd::prelude::*;
use vstd::string::StringSliceAdditionalSpecFns;

use crate::complex_strategy::{allowed_actions, double_allowed, split_limit};
use crate::hand::{hand_is_pair, hand_is_soft, hand_total, Hand};
use crate::rules::BlackjackRules;
use crate::table::{entries_map, lemma_entries_map_absent, lemma_entries_map_last};
use crate::types::{Action, ActionMask, HandType, Rank, A, T};

verus! {

/// The class of a hand in a strategy chart.
#[derive(PartialEq, Eq, Structural, Clone, Copy, Debug, Hash)]
pub enum BasicStrategyHand {
    Hard(u32),
    Soft(u32),
    Pair(Rank),
}

/// A cell of a strategy chart: a class of hands against a dealer upcard.
#[derive(PartialEq, Eq, Structural, Clone, Copy, Debug, Hash)]
pub struct BasicStrategyChartKey {
    pub hand: BasicStrategyHand,
    pub upcard: Rank,
}

/// Why a strategy chart could not be built.
#[derive(PartialEq, Eq, Structural, Clone, Copy, Debug)]
pub enum ChartError {
    /// The bytes are not well-formed comma-separated records.
    MalformedCsv,
    /// A record without fields.
    EmptyRow,
    /// A section header names an upcard other than 2 to 9, 10 or A.
    InvalidUpcard,
    /// A row names a hand that is not a total (or, in the pair section, a rank).
    InvalidHand,
    /// A cell is empty or holds a letter other than S, H, D or P.
    InvalidAction,
    /// A row has more cells than its section header has upcards.
    MissingUpcard,
    /// No built-in chart matches the rules.
    NoChart,
}

/// An entry of a chart: a cell and its actions in order of preference.
pub type ChartEntry = (BasicStrategyChartKey, Seq<Action>);

/// The action of a letter, in either case.
pub open spec fn action_of_char(c: char) -> Option<Action> {
    if c == 'S' || c == 's' {
        Some(Action::Stand)
    } else if c == 'H' || c == 'h' {
        Some(Action::Hit)
    } else if c == 'D' || c == 'd' {
        Some(Action::Double)
    } else if c == 'P' || c == 'p' {
        Some(Action::Split)
    } else {
        None
    }
}

/// The actions of a cell: one or more action letters.
pub open spec fn actions_of(f: Seq<char>) -> Option<Seq<Action>> {
    if f.len() > 0 && forall|i: int| 0 <= i < f.len() ==> (#[trigger] action_of_char(f[i])) is Some {
        Some(Seq::new(f.len(), |i: int| action_of_char(f[i])->0))
    } else {
        None
    }
}

/// The value of a decimal digit.
pub open spec fn digit_of(c: char) -> Option<nat> {
    if c == '0' {
        Some(0)
    } else if c == '1' {
        Some(1)
    } else if c == '2' {
        Some(2)
    } else if c == '3' {
        Some(3)
    } else if c == '4' {
        Some(4)
    } else if c == '5' {
        Some(5)
    } else if c == '6' {
        Some(6)
    } else if c == '7' {
        Some(7)
    } else if c == '8' {
        Some(8)
    } else if c == '9' {
        Some(9)
    } else {
        None
    }
}

pub open spec fn all_digits(f: Seq<char>) -> bool {
    forall|i: int| 0 <= i < f.len() ==> (#[trigger] digit_of(f[i])) is Some
}

/// The number that a string of digits writes.
pub open spec fn digits_value(f: Seq<char>) -> nat
    decreases f.len(),
{
    if f.len() == 0 {
        0
    } else {
        digits_value(f.drop_last()) * 10 + digit_of(f.last()).unwrap_or(0)
    }
}

/// A non-empty string of digits whose value fits a `u32`.
pub open spec fn decimal_of(f: Seq<char>) -> Option<u32> {
    if f.len() > 0 && all_digits(f) && digits_value(f) <= u32::MAX {
        Some(digits_value(f) as u32)
    } else {
        None
    }
}

/// The rank of a column or pair label: `2` to `9`, `10` or `A`.
pub open spec fn rank_of_label(f: Seq<char>) -> Option<Rank> {
    if f.len() == 2 && f[0] == '1' && f[1] == '0' {
        Some(T)
    } else if f.len() == 1 && f[0] == 'A' {
        Some(A)
    } else if f.len() == 1 && digit_of(f[0]) is Some && digit_of(f[0])->0 >= 2 {
        Some(digit_of(f[0])->0 as Rank)
    } else {
        None
    }
}

/// The class named by a section header.
pub open spec fn header_kind(f: Seq<char>) -> Option<HandType> {
    if f.len() == 4 && f[0] == 'H' && f[1] == 'a' && f[2] == 'r' && f[3] == 'd' {
        Some(HandType::Hard)
    } else if f.len() == 4 && f[0] == 'S' && f[1] == 'o' && f[2] == 'f' && f[3] == 't' {
        Some(HandType::Soft)
    } else if f.len() == 4 && f[0] == 'P' && f[1] == 'a' && f[2] == 'i' && f[3] == 'r' {
        Some(HandType::Pair)
    } else {
        None
    }
}

pub open spec fn class_of(kind: HandType, id: u32) -> BasicStrategyHand {
    match kind {
        HandType::Hard => BasicStrategyHand::Hard(id),
        HandType::Soft => BasicStrategyHand::Soft(id),
        HandType::Pair => BasicStrategyHand::Pair(id),
    }
}

/// The identifier of a row: a rank in the pair section, a total elsewhere.
pub open spec fn row_id(kind: HandType, f: Seq<char>) -> Option<u32> {
    if kind == HandType::Pair {
        rank_of_label(f)
    } else {
        decimal_of(f)
    }
}

/// The upcards of a section header row.
pub open spec fn header_ranks(row: Seq<Seq<char>>) -> Option<Seq<Rank>> {
    if forall|j: int| 1 <= j < row.len() ==> (#[trigger] rank_of_label(row[j])) is Some {
        Some(Seq::new((row.len() - 1) as nat, |j: int| rank_of_label(row[j + 1])->0))
    } else {
        None
    }
}

/// The entries of an action row.
pub open spec fn row_cells(row: Seq<Seq<char>>, kind: HandType, id: u32, headers: Seq<Rank>) -> Option<Seq<ChartEntry>> {
    if forall|j: int| 1 <= j < row.len() ==> (#[trigger] actions_of(row[j])) is Some {
        Some(Seq::new((row.len() - 1) as nat, |j: int| (BasicStrategyChartKey { hand: class_of(kind, id), upcard: headers[j] }, actions_of(row[j + 1])->0)))
    } else {
        None
    }
}

/// One record of a chart, read in the section `kind` under the upcards `headers`: the section
/// and upcards that hold after it, and the entries it adds.
pub open spec fn row_step(row: Seq<Seq<char>>, kind: HandType, headers: Seq<Rank>) -> Result<(HandType, Seq<Rank>, Seq<ChartEntry>), ChartError> {
    if row.len() == 0 {
        Err(ChartError::EmptyRow)
    } else {
        match header_kind(row[0]) {
            Some(k) => match header_ranks(row) {
                Some(h) => Ok((k, h, Seq::empty())),
                None => Err(ChartError::InvalidUpcard),
            },
            None => match row_id(kind, row[0]) {
                None => Err(ChartError::InvalidHand),
                Some(id) => if row.len() - 1 > headers.len() {
                    Err(ChartError::MissingUpcard)
                } else {
                    match row_cells(row, kind, id, headers) {
                        Some(es) => Ok((kind, headers, es)),
                        None => Err(ChartError::InvalidAction),
                    }
                },
            },
        }
    }
}

pub open spec fn prepend(a: Seq<ChartEntry>, r: Result<Seq<ChartEntry>, ChartError>) -> Result<Seq<ChartEntry>, ChartError> {
    match r {
        Ok(rest) => Ok(a + rest),
        Err(e) => Err(e),
    }
}

/// The entries of the records from `i` on, read in section `kind` under `headers`.
pub open spec fn parse_rows(rows: Seq<Seq<Seq<char>>>, i: int, kind: HandType, headers: Seq<Rank>) -> Result<Seq<ChartEntry>, ChartError>
    decreases rows.len() - i,
{
    if i < 0 || i >= rows.len() {
        Ok(Seq::empty())
    } else {
        match row_step(rows[i], kind, headers) {
            Err(e) => Err(e),
            Ok((k, h, es)) => prepend(es, parse_rows(rows, i + 1, k, h)),
        }
    }
}

/// The entries of a chart's records; reading starts in the hard section with no upcards.
pub open spec fn chart_of_rows(rows: Seq<Seq<Seq<char>>>) -> Result<Seq<ChartEntry>, ChartError> {
    parse_rows(rows, 0, HandType::Hard, Seq::empty())
}

/// The records that the csv crate reads from some bytes, each a sequence of fields, or `None`
/// where it reports an error.
pub uninterp spec fn csv_rows_of(bytes: Seq<u8>) -> Option<Seq<Seq<Seq<char>>>>;

pub open spec fn rows_view(rows: Vec<Vec<Vec<char>>>) -> Seq<Seq<Seq<char>>> {
    rows@.map_values(|row: Vec<Vec<char>>| row@.map_values(|f: Vec<char>| f@))
}

/// The entries of a chart written as comma-separated bytes.
pub open spec fn chart_of_bytes(bytes: Seq<u8>) -> Result<Seq<ChartEntry>, ChartError> {
    match csv_rows_of(bytes) {
        None => Err(ChartError::MalformedCsv),
        Some(rows) => chart_of_rows(rows),
    }
}

#[verifier::external_type_specification]
#[verifier::external_body]
pub struct ExCsvError(csv::Error);

/// Relies on the csv crate's `Reader` (no header record, every record with the same number of
/// fields): the records it reads depend on the bytes alone.
#[verifier::external_body]
fn csv_records(bytes: &[u8]) -> (r: Result<Vec<Vec<Vec<char>>>, csv::Error>)
    ensures
        match r {
            Ok(rows) => csv_rows_of(bytes@) == Some(rows_view(rows)),
            Err(_) => csv_rows_of(bytes@) is None,
        },
{
    let mut reader = csv::ReaderBuilder::new().has_headers(false).from_reader(bytes);
    let mut rows = Vec::new();
    for record in reader.records() {
        let record = record?;
        let mut fields = Vec::new();
        for field in record.iter() {
            fields.push(field.chars().collect());
        }
        rows.push(fields);
    }
    Ok(rows)
}

/// Relies on `str::chars`: the characters of the string, in order.
#[verifier::external_body]
fn chars_of(s: &str) -> (r: Vec<char>)
    ensures
        r@ == s@,
{
    s.chars().collect()
}

/// Relies on collecting characters into a `String`: the string of those characters.
#[verifier::external_body]
fn string_of(chars: &Vec<char>) -> (r: String)
    ensures
        r@ == chars@,
{
    chars.iter().collect()
}

pub open spec fn entries_view(v: Seq<(BasicStrategyChartKey, Vec<Action>)>) -> Seq<ChartEntry> {
    v.map_values(|e: (BasicStrategyChartKey, Vec<Action>)| (e.0, e.1@))
}

fn action_of(c: char) -> (r: Option<Action>)
    ensures
        r == action_of_char(c),
{
    if c == 'S' || c == 's' {
        Some(Action::Stand)
    } else if c == 'H' || c == 'h' {
        Some(Action::Hit)
    } else if c == 'D' || c == 'd' {
        Some(Action::Double)
    } else if c == 'P' || c == 'p' {
        Some(Action::Split)
    } else {
        None
    }
}

fn digit(c: char) -> (r: Option<u32>)
    ensures
        match digit_of(c) {
            Some(d) => r == Some(d as u32),
            None => r is None,
        },
{
    if c == '0' {
        Some(0)
    } else if c == '1' {
        Some(1)
    } else if c == '2' {
        Some(2)
    } else if c == '3' {
        Some(3)
    } else if c == '4' {
        Some(4)
    } else if c == '5' {
        Some(5)
    } else if c == '6' {
        Some(6)
    } else if c == '7' {
        Some(7)
    } else if c == '8' {
        Some(8)
    } else if c == '9' {
        Some(9)
    } else {
        None
    }
}

/// The actions of a chart cell, or `None` for an empty cell or an unknown letter.
fn parse_actions(f: &Vec<char>) -> (r: Option<Vec<Action>>)
    ensures
        match actions_of(f@) {
            Some(a) => r is Some && r->0@ == a,
            None => r is None,
        },
{
    if f.len() == 0 {
        return None;
    }
    let mut actions: Vec<Action> = Vec::new();
    let mut i: usize = 0;
    while i < f.len()
        invariant
            0 <= i <= f@.len(),
            forall|k: int| 0 <= k < i ==> (#[trigger] action_of_char(f@[k])) is Some,
            actions@ == Seq::new(i as nat, |k: int| action_of_char(f@[k])->0),
        decreases f@.len() - i,
    {
        match action_of(f[i]) {
            None => {
                return None;
            },
            Some(a) => {
                actions.push(a);
            },
        }
        i = i + 1;
        assert(actions@ =~= Seq::new(i as nat, |k: int| action_of_char(f@[k])->0));
    }
    Some(actions)
}

/// Reads a chart cell: its first letter is the preferred action, the others are the fallbacks
/// in order. Letters are S, H, D and P in either case.
pub fn csv_actions_parse(s: &str) -> (r: Result<Vec<Action>, ChartError>)
    ensures
        match actions_of(s@) {
            Some(a) => r is Ok && r->Ok_0@ == a,
            None => r == Err::<Vec<Action>, ChartError>(ChartError::InvalidAction),
        },
{
    let chars = chars_of(s);
    match parse_actions(&chars) {
        Some(a) => Ok(a),
        None => Err(ChartError::InvalidAction),
    }
}

proof fn lemma_digits_value_mono(f: Seq<char>, i: int, j: int)
    requires
        0 <= i <= j <= f.len(),
    ensures
        digits_value(f.subrange(0, i)) <= digits_value(f.subrange(0, j)),
    decreases j - i,
{
    if i < j {
        lemma_digits_value_mono(f, i, j - 1);
        assert(f.subrange(0, j).drop_last() =~= f.subrange(0, j - 1));
    }
}

fn parse_decimal(f: &Vec<char>) -> (r: Option<u32>)
    ensures
        r == decimal_of(f@),
{
    if f.len() == 0 {
        return None;
    }
    let mut v: u64 = 0;
    let mut i: usize = 0;
    while i < f.len()
        invariant
            0 <= i <= f@.len(),
            f@.len() > 0,
            v == digits_value(f@.subrange(0, i as int)),
            v <= u32::MAX,
            all_digits(f@.subrange(0, i as int)),
        decreases f@.len() - i,
    {
        assert(f@.subrange(0, i as int + 1).drop_last() =~= f@.subrange(0, i as int));
        match digit(f[i]) {
            None => {
                assert(!all_digits(f@));
                return None;
            },
            Some(d) => {
                v = v * 10 + d as u64;
                assert(all_digits(f@.subrange(0, i as int + 1))) by {
                    assert forall|k: int| 0 <= k < i + 1 implies (#[trigger] digit_of(f@.subrange(0, i as int + 1)[k])) is Some by {
                        if k < i {
                            assert(f@.subrange(0, i as int + 1)[k] == f@.subrange(0, i as int)[k]);
                        }
                    }
                }
                if v > 0xffff_ffff {
                    proof {
                        lemma_digits_value_mono(f@, i as int + 1, f@.len() as int);
                        assert(f@.subrange(0, f@.len() as int) =~= f@);
                    }
                    return None;
                }
            },
        }
        i = i + 1;
    }
    assert(f@.subrange(0, f@.len() as int) =~= f@);
    Some(v as u32)
}

fn csv_rank_to_int(f: &Vec<char>) -> (r: Option<Rank>)
    ensures
        r == rank_of_label(f@),
{
    if f.len() == 2 && f[0] == '1' && f[1] == '0' {
        Some(T)
    } else if f.len() == 1 && f[0] == 'A' {
        Some(A)
    } else if f.len() == 1 {
        match digit(f[0]) {
            Some(d) => if d >= 2 {
                Some(d)
            } else {
                None
            },
            None => None,
        }
    } else {
        None
    }
}

fn type_from_str(f: &Vec<char>) -> (r: Option<HandType>)
    ensures
        r == header_kind(f@),
{
    if f.len() == 4 && f[0] == 'H' && f[1] == 'a' && f[2] == 'r' && f[3] == 'd' {
        Some(HandType::Hard)
    } else if f.len() == 4 && f[0] == 'S' && f[1] == 'o' && f[2] == 'f' && f[3] == 't' {
        Some(HandType::Soft)
    } else if f.len() == 4 && f[0] == 'P' && f[1] == 'a' && f[2] == 'i' && f[3] == 'r' {
        Some(HandType::Pair)
    } else {
        None
    }
}

fn class(kind: HandType, id: u32) -> (c: BasicStrategyHand)
    ensures
        c == class_of(kind, id),
{
    match kind {
        HandType::Hard => BasicStrategyHand::Hard(id),
        HandType::Soft => BasicStrategyHand::Soft(id),
        HandType::Pair => BasicStrategyHand::Pair(id),
    }
}

proof fn lemma_prepend_assoc(a: Seq<ChartEntry>, b: Seq<ChartEntry>, r: Result<Seq<ChartEntry>, ChartError>)
    ensures
        prepend(a, prepend(b, r)) == prepend(a + b, r),
{
    match r {
        Ok(rest) => {
            assert(a + (b + rest) =~= (a + b) + rest);
        },
        Err(_) => {},
    }
}

/// Reads the entries of a chart from its records.
fn parse_chart(rows: &Vec<Vec<Vec<char>>>) -> (r: Result<Vec<(BasicStrategyChartKey, Vec<Action>)>, ChartError>)
    ensures
        match r {
            Ok(v) => chart_of_rows(rows_view(*rows)) == Ok::<Seq<ChartEntry>, ChartError>(entries_view(v@)),
            Err(e) => chart_of_rows(rows_view(*rows)) == Err::<Seq<ChartEntry>, ChartError>(e),
        },
{
    let ghost rv = rows_view(*rows);
    let mut chart: Vec<(BasicStrategyChartKey, Vec<Action>)> = Vec::new();
    let mut kind = HandType::Hard;
    let mut headers: Vec<Rank> = Vec::new();
    let mut i: usize = 0;
    assert(entries_view(chart@) =~= Seq::<ChartEntry>::empty());
    assert(headers@ =~= Seq::<Rank>::empty());
    proof {
        lemma_prepend_assoc(Seq::empty(), Seq::empty(), parse_rows(rv, 0, kind, headers@));
        assert(Seq::<ChartEntry>::empty() + Seq::<ChartEntry>::empty() =~= Seq::<ChartEntry>::empty());
        match parse_rows(rv, 0, kind, headers@) {
            Ok(rest) => {
                assert(Seq::<ChartEntry>::empty() + rest =~= rest);
            },
            Err(_) => {},
        }
    }
    while i < rows.len()
        invariant
            rv == rows_view(*rows),
            0 <= i <= rows@.len(),
            chart_of_rows(rv) == prepend(entries_view(chart@), parse_rows(rv, i as int, kind, headers@)),
        decreases rows@.len() - i,
    {
        let row = &rows[i];
        assert(rv[i as int] == row@.map_values(|f: Vec<char>| f@));
        let ghost rrow = rv[i as int];
        if row.len() == 0 {
            return Err(ChartError::EmptyRow);
        }
        assert(rrow[0] == row@[0]@);
        match type_from_str(&row[0]) {
            Some(k) => {
                let mut new_headers: Vec<Rank> = Vec::new();
                let mut j: usize = 1;
                while j < row.len()
                    invariant
                        rrow == row@.map_values(|f: Vec<char>| f@),
                        rv == rows_view(*rows),
                        0 <= i < rows@.len(),
                        rrow == rv[i as int],
                        rrow.len() > 0,
                        header_kind(rrow[0]) == Some(k),
                        chart_of_rows(rv) == prepend(entries_view(chart@), parse_rows(rv, i as int, kind, headers@)),
                        1 <= j <= row@.len(),
                        forall|jj: int| 1 <= jj < j ==> (#[trigger] rank_of_label(rrow[jj])) is Some,
                        new_headers@ == Seq::new((j - 1) as nat, |jj: int| rank_of_label(rrow[jj + 1])->0),
                    decreases row@.len() - j,
                {
                    assert(rrow[j as int] == row@[j as int]@);
                    match csv_rank_to_int(&row[j]) {
                        None => {
                            assert(header_ranks(rrow) is None);
                            return Err(ChartError::InvalidUpcard);
                        },
                        Some(r) => {
                            new_headers.push(r);
                        },
                    }
                    j = j + 1;
                    assert(new_headers@ =~= Seq::new((j - 1) as nat, |jj: int| rank_of_label(rrow[jj + 1])->0));
                }
                assert(header_ranks(rrow) == Some(new_headers@));
                proof {
                    lemma_prepend_assoc(entries_view(chart@), Seq::empty(), parse_rows(rv, i + 1, k, new_headers@));
                    assert(entries_view(chart@) + Seq::<ChartEntry>::empty() =~= entries_view(chart@));
                }
                kind = k;
                headers = new_headers;
            },
            None => {
                let id = if kind == HandType::Pair {
                    csv_rank_to_int(&row[0])
                } else {
                    parse_decimal(&row[0])
                };
                match id {
                    None => {
                        return Err(ChartError::InvalidHand);
                    },
                    Some(id) => {
                        if row.len() - 1 > headers.len() {
                            return Err(ChartError::MissingUpcard);
                        }
                        let hand = class(kind, id);
                        let ghost base = entries_view(chart@);
                        let mut j: usize = 1;
                        while j < row.len()
                            invariant
                                rrow == row@.map_values(|f: Vec<char>| f@),
                                rv == rows_view(*rows),
                                0 <= i < rows@.len(),
                                rrow == rv[i as int],
                                rrow.len() > 0,
                                header_kind(rrow[0]) is None,
                                row_id(kind, rrow[0]) == Some(id),
                                chart_of_rows(rv) == prepend(base, parse_rows(rv, i as int, kind, headers@)),
                                1 <= j <= row@.len(),
                                row@.len() - 1 <= headers@.len(),
                                hand == class_of(kind, id),
                                forall|jj: int| 1 <= jj < j ==> (#[trigger] actions_of(rrow[jj])) is Some,
                                entries_view(chart@) == base + Seq::new((j - 1) as nat, |jj: int| (BasicStrategyChartKey { hand: class_of(kind, id), upcard: headers@[jj] }, actions_of(rrow[jj + 1])->0)),
                            decreases row@.len() - j,
                        {
                            assert(rrow[j as int] == row@[j as int]@);
                            match parse_actions(&row[j]) {
                                None => {
                                    assert(row_cells(rrow, kind, id, headers@) is None);
                                    return Err(ChartError::InvalidAction);
                                },
                                Some(a) => {
                                    let key = BasicStrategyChartKey { hand, upcard: headers[j - 1] };
                                    let ghost before = chart@;
                                    chart.push((key, a));
                                    assert(chart@ == before.push((key, a)));
                                    assert(entries_view(chart@) =~= entries_view(before).push((key, a@)));
                                },
                            }
                            j = j + 1;
                            assert(entries_view(chart@) =~= base + Seq::new((j - 1) as nat, |jj: int| (BasicStrategyChartKey { hand: class_of(kind, id), upcard: headers@[jj] }, actions_of(rrow[jj + 1])->0)));
                        }
                        assert(row_cells(rrow, kind, id, headers@) == Some(Seq::new((row@.len() - 1) as nat, |jj: int| (BasicStrategyChartKey { hand: class_of(kind, id), upcard: headers@[jj] }, actions_of(rrow[jj + 1])->0))));
                        proof {
                            lemma_prepend_assoc(base, Seq::new((row@.len() - 1) as nat, |jj: int| (BasicStrategyChartKey { hand: class_of(kind, id), upcard: headers@[jj] }, actions_of(rrow[jj + 1])->0)), parse_rows(rv, i + 1, kind, headers@));
                        }
                    },
                }
            },
        }
        i = i + 1;
    }
    proof {
        match parse_rows(rv, i as int, kind, headers@) {
            Ok(rest) => {
                assert(entries_view(chart@) + rest =~= entries_view(chart@));
            },
            Err(_) => {},
        }
    }
    Ok(chart)
}

/// The class of a hand in a chart: its pair, if it is one, else its soft or hard total.
pub open spec fn class_of_hand(s: Seq<Rank>) -> BasicStrategyHand {
    if hand_is_pair(s) {
        BasicStrategyHand::Pair(s[0])
    } else {
        class_of_unsplittable(s)
    }
}

/// The class of a hand in a chart when it is not played as a pair: its soft or hard total.
pub open spec fn class_of_unsplittable(s: Seq<Rank>) -> BasicStrategyHand {
    if hand_is_soft(s) {
        BasicStrategyHand::Soft(hand_total(s) as u32)
    } else {
        BasicStrategyHand::Hard(hand_total(s) as u32)
    }
}

/// The actions a chart lists for a hand against an upcard: the cell of its class, and when that
/// cell prefers a split, followed by the cell of the same hand not played as a pair, where the
/// chart has one.
pub open spec fn plays_of(m: Map<BasicStrategyChartKey, Seq<Action>>, s: Seq<Rank>, up: Rank) -> Option<Seq<Action>> {
    let k1 = BasicStrategyChartKey { hand: class_of_hand(s), upcard: up };
    let k2 = BasicStrategyChartKey { hand: class_of_unsplittable(s), upcard: up };
    if !m.contains_key(k1) {
        None
    } else if m[k1].len() > 0 && m[k1][0] == Action::Split && m.contains_key(k2) {
        Some(m[k1] + m[k2])
    } else {
        Some(m[k1])
    }
}

/// The first action of the list that the mask allows.
pub open spec fn first_allowed(s: Seq<Action>, allowed: ActionMask) -> Option<Action>
    decreases s.len(),
{
    if s.len() == 0 {
        None
    } else if allowed.allows(s[0]) {
        Some(s[0])
    } else {
        first_allowed(s.drop_first(), allowed)
    }
}

/// The actions allowed to a hand with `num_hands` hands in play.
pub open spec fn mask_for(rules: BlackjackRules, s: Seq<Rank>, num_hands: u32) -> ActionMask {
    ActionMask {
        stand: true,
        hit: true,
        double: double_allowed(rules, s.len() == 2, hand_total(s), num_hands as nat),
        split: num_hands < split_limit(rules, if hand_is_pair(s) { Some(s[0]) } else { None }),
    }
}

/// The rules of the built-in one-deck chart.
pub open spec fn is_one_deck_preset(rules: BlackjackRules) -> bool {
    rules.decks == 1 && rules.hit_soft_17 && !rules.double_any_hands && rules.double_hard_hands_thru_11 == 10 && !rules.double_after_split
}

/// The rules of the built-in six-deck chart.
pub open spec fn is_six_deck_preset(rules: BlackjackRules) -> bool {
    rules.decks == 6 && rules.hit_soft_17 && rules.double_any_hands && rules.double_after_split
}

/// A built-in chart exists for the rules.
pub open spec fn has_builtin_chart(rules: BlackjackRules) -> bool {
    is_one_deck_preset(rules) || is_six_deck_preset(rules)
}

/// The bytes of the built-in chart for the rules (the one-deck chart where both would match).
pub open spec fn builtin_bytes(rules: BlackjackRules) -> Seq<u8> {
    if is_one_deck_preset(rules) {
        CHART_1D_H17_NDAS_D10.spec_bytes()
    } else {
        CHART_6D_H17_DAS_DANY.spec_bytes()
    }
}

pub open spec fn upper_letter(a: Action) -> char {
    match a {
        Action::Stand => 'S',
        Action::Hit => 'H',
        Action::Double => 'D',
        Action::Split => 'P',
    }
}

pub open spec fn lower_letter(a: Action) -> char {
    match a {
        Action::Stand => 's',
        Action::Hit => 'h',
        Action::Double => 'd',
        Action::Split => 'p',
    }
}

/// The letters of a list of actions: the first in upper case, the fallbacks in lower case.
pub open spec fn letters_of(s: Seq<Action>) -> Seq<char> {
    Seq::new(s.len(), |i: int| if i == 0 { upper_letter(s[i]) } else { lower_letter(s[i]) })
}

/// The label of a rank: `10`, `A`, or the digit; `?` for a value that is not a rank.
pub open spec fn rank_label(r: Rank) -> Seq<char> {
    if r == T {
        seq!['1', '0']
    } else if r == A {
        seq!['A']
    } else if r == 2 {
        seq!['2']
    } else if r == 3 {
        seq!['3']
    } else if r == 4 {
        seq!['4']
    } else if r == 5 {
        seq!['5']
    } else if r == 6 {
        seq!['6']
    } else if r == 7 {
        seq!['7']
    } else if r == 8 {
        seq!['8']
    } else if r == 9 {
        seq!['9']
    } else {
        seq!['?']
    }
}

proof fn lemma_parse_rows_no_chart_error(rows: Seq<Seq<Seq<char>>>, i: int, kind: HandType, headers: Seq<Rank>)
    ensures
        parse_rows(rows, i, kind, headers) != Err::<Seq<ChartEntry>, ChartError>(ChartError::NoChart),
    decreases rows.len() - i,
{
    if 0 <= i < rows.len() {
        match row_step(rows[i], kind, headers) {
            Err(e) => {},
            Ok((k, h, es)) => {
                lemma_parse_rows_no_chart_error(rows, i + 1, k, h);
            },
        }
    }
}

/// A basic strategy chart: for each class of hand and upcard, the actions in order of
/// preference.
#[derive(Clone, Debug)]
pub struct BasicStrategyChart {
    rules: BlackjackRules,
    chart: Vec<(BasicStrategyChartKey, Vec<Action>)>,
}

impl View for BasicStrategyChart {
    type V = Map<BasicStrategyChartKey, Seq<Action>>;

    closed spec fn view(&self) -> Map<BasicStrategyChartKey, Seq<Action>> {
        entries_map(entries_view(self.chart@))
    }
}

impl BasicStrategyChart {
    /// The rules the chart was made for.
    pub closed spec fn spec_rules(&self) -> BlackjackRules {
        self.rules
    }

    /// The rules the chart was made for.
    pub fn rules(&self) -> (r: BlackjackRules)
        ensures
            r == self.spec_rules(),
    {
        self.rules
    }

    /// Reads a chart for `rules` from comma-separated bytes.
    pub fn from_bytes(rules: &BlackjackRules, bytes: &[u8]) -> (r: Result<BasicStrategyChart, ChartError>)
        ensures
            match chart_of_bytes(bytes@) {
                Ok(es) => r is Ok && r->Ok_0@ == entries_map(es) && r->Ok_0.spec_rules() == *rules,
                Err(e) => r == Err::<BasicStrategyChart, ChartError>(e),
            },
    {
        match csv_records(bytes) {
            Err(_) => Err(ChartError::MalformedCsv),
            Ok(rows) => match parse_chart(&rows) {
                Ok(chart) => Ok(BasicStrategyChart { rules: *rules, chart }),
                Err(e) => Err(e),
            },
        }
    }

    /// The chart that comes with the library for `rules`.
    pub fn builtin(rules: &BlackjackRules) -> (r: Result<BasicStrategyChart, ChartError>)
        ensures
            (r == Err::<BasicStrategyChart, ChartError>(ChartError::NoChart)) == !has_builtin_chart(*rules),
            r is Ok ==> r->Ok_0.spec_rules() == *rules,
            has_builtin_chart(*rules) ==> match chart_of_bytes(builtin_bytes(*rules)) {
                Ok(es) => r is Ok && r->Ok_0@ == entries_map(es),
                Err(e) => r == Err::<BasicStrategyChart, ChartError>(e),
            },
    {
        let text = if rules.decks == 1 && rules.hit_soft_17 && !rules.double_any_hands
            && rules.double_hard_hands_thru_11 == 10 && !rules.double_after_split {
            CHART_1D_H17_NDAS_D10
        } else if rules.decks == 6 && rules.hit_soft_17 && rules.double_any_hands && rules.double_after_split {
            CHART_6D_H17_DAS_DANY
        } else {
            return Err(ChartError::NoChart);
        };
        let bytes = text.as_bytes();
        assert(bytes@ == builtin_bytes(*rules));
        let r = Self::from_bytes(rules, bytes);
        proof {
            match csv_rows_of(bytes@) {
                Some(rows) => lemma_parse_rows_no_chart_error(rows, 0, HandType::Hard, Seq::empty()),
                None => {},
            }
        }
        r
    }

    /// The actions of a cell, if the chart has it.
    fn lookup(&self, key: BasicStrategyChartKey) -> (r: Option<&Vec<Action>>)
        ensures
            match r {
                Some(v) => self@.contains_key(key) && v@ == self@[key],
                None => !self@.contains_key(key),
            },
    {
        let ghost es = entries_view(self.chart@);
        let mut i: usize = self.chart.len();
        while i > 0
            invariant
                es == entries_view(self.chart@),
                0 <= i <= self.chart@.len(),
                forall|j: int| i <= j < self.chart@.len() ==> es[j].0 != key,
            decreases i,
        {
            i = i - 1;
            if self.chart[i].0 == key {
                proof {
                    lemma_entries_map_last(es, key, i as int);
                }
                return Some(&self.chart[i].1);
            }
        }
        proof {
            lemma_entries_map_absent(es, key);
        }
        None
    }

    /// The actions of a cell, in order of preference, if the chart has it.
    pub fn actions(&self, key: BasicStrategyChartKey) -> (r: Option<Vec<Action>>)
        ensures
            match r {
                Some(v) => self@.contains_key(key) && v@ == self@[key],
                None => !self@.contains_key(key),
            },
    {
        match self.lookup(key) {
            Some(v) => Some(copy_actions(v)),
            None => None,
        }
    }

    /// The actions this chart lists for a hand against the dealer's upcard, in order of
    /// preference, whatever is allowed in the situation. A pair whose preferred action is a
    /// split is followed by the actions for the same hand not played as a pair. `None` when the
    /// chart has no cell for the hand.
    pub fn basic_plays(&self, hand: &Hand, dealer_up: Rank) -> (r: Option<Vec<Action>>)
        requires
            hand.wf(),
        ensures
            match plays_of(self@, hand@, dealer_up) {
                Some(a) => r is Some && r->0@ == a,
                None => r is None,
            },
    {
        let key = BasicStrategyChartKey { hand: BasicStrategyHand::from(hand), upcard: dealer_up };
        let first = match self.lookup(key) {
            Some(v) => v,
            None => {
                return None;
            },
        };
        let mut actions = copy_actions(first);
        if actions.len() > 0 && actions[0] == Action::Split {
            // A split preference falls back on the play for the same cards not split.
            let key2 = BasicStrategyChartKey { hand: BasicStrategyHand::from_unsplittable(hand), upcard: dealer_up };
            match self.lookup(key2) {
                Some(v) => {
                    let ghost before = actions@;
                    let mut i: usize = 0;
                    while i < v.len()
                        invariant
                            0 <= i <= v@.len(),
                            actions@ == before + v@.subrange(0, i as int),
                        decreases v@.len() - i,
                    {
                        actions.push(v[i]);
                        i = i + 1;
                        assert(actions@ =~= before + v@.subrange(0, i as int));
                    }
                    assert(v@.subrange(0, v@.len() as int) =~= v@);
                },
                None => {},
            }
        }
        Some(actions)
    }

    /// The first action this chart lists for the hand that `allowed` permits; `None` when the
    /// chart has no cell for the hand or permits none of its actions.
    pub fn basic_play_allowed(&self, allowed: &ActionMask, hand: &Hand, dealer_up: Rank) -> (r: Option<Action>)
        requires
            hand.wf(),
        ensures
            r == (match plays_of(self@, hand@, dealer_up) {
                Some(a) => first_allowed(a, *allowed),
                None => None,
            }),
    {
        match self.basic_plays(hand, dealer_up) {
            None => None,
            Some(list) => pick_first_allowed(&list, allowed),
        }
    }

    /// The play of this chart in context: the first listed action that the rules allow to the
    /// hand with `num_hands` hands in play.
    pub fn context_basic_play(&self, hand: &Hand, dealer_up: Rank, num_hands: u32) -> (r: Option<Action>)
        requires
            hand.wf(),
        ensures
            r == (match plays_of(self@, hand@, dealer_up) {
                Some(a) => first_allowed(a, mask_for(self.spec_rules(), hand@, num_hands)),
                None => None,
            }),
    {
        let (allowed, _) = allowed_actions(&self.rules, hand, num_hands);
        self.basic_play_allowed(&allowed, hand, dealer_up)
    }
}

fn copy_actions(v: &Vec<Action>) -> (r: Vec<Action>)
    ensures
        r@ == v@,
{
    let mut r: Vec<Action> = Vec::new();
    let mut i: usize = 0;
    while i < v.len()
        invariant
            0 <= i <= v@.len(),
            r@ == v@.subrange(0, i as int),
        decreases v@.len() - i,
    {
        r.push(v[i]);
        i = i + 1;
        assert(r@ =~= v@.subrange(0, i as int));
    }
    assert(v@.subrange(0, v@.len() as int) =~= v@);
    r
}

fn pick_first_allowed(list: &Vec<Action>, allowed: &ActionMask) -> (r: Option<Action>)
    ensures
        r == first_allowed(list@, *allowed),
{
    let mut i: usize = 0;
    assert(list@.subrange(0, list@.len() as int) =~= list@);
    while i < list.len()
        invariant
            0 <= i <= list@.len(),
            first_allowed(list@, *allowed) == first_allowed(list@.subrange(i as int, list@.len() as int), *allowed),
        decreases list@.len() - i,
    {
        let a = list[i];
        assert(list@.subrange(i as int, list@.len() as int)[0] == a);
        if allowed.get(a) {
            return Some(a);
        }
        assert(list@.subrange(i as int, list@.len() as int).drop_first() =~= list@.subrange(i as int + 1, list@.len() as int));
        i = i + 1;
    }
    None
}

impl BasicStrategyHand {
    /// The class of a hand: its pair, whether or not a split is allowed, else its total.
    pub fn from(hand: &Hand) -> (c: BasicStrategyHand)
        requires
            hand.wf(),
        ensures
            c == class_of_hand(hand@),
    {
        match hand.is_pair() {
            Some(paired_card) => BasicStrategyHand::Pair(paired_card),
            None => Self::from_unsplittable(hand),
        }
    }

    /// The class of a hand played without splitting: its soft or hard total.
    pub fn from_unsplittable(hand: &Hand) -> (c: BasicStrategyHand)
        requires
            hand.wf(),
        ensures
            c == class_of_unsplittable(hand@),
    {
        if hand.is_soft() {
            BasicStrategyHand::Soft(hand.total())
        } else {
            BasicStrategyHand::Hard(hand.total())
        }
    }
}

/// The label of a rank as it is written in a chart: `10`, `A` or the digit, and `?` for a value
/// that is not a rank.
pub fn int_to_rank_str(rank: Rank) -> (s: String)
    ensures
        s@ == rank_label(rank),
{
    let mut chars: Vec<char> = Vec::new();
    if rank == T {
        chars.push('1');
        chars.push('0');
    } else if rank == A {
        chars.push('A');
    } else if rank == 2 {
        chars.push('2');
    } else if rank == 3 {
        chars.push('3');
    } else if rank == 4 {
        chars.push('4');
    } else if rank == 5 {
        chars.push('5');
    } else if rank == 6 {
        chars.push('6');
    } else if rank == 7 {
        chars.push('7');
    } else if rank == 8 {
        chars.push('8');
    } else if rank == 9 {
        chars.push('9');
    } else {
        chars.push('?');
    }
    assert(chars@ =~= rank_label(rank));
    string_of(&chars)
}

/// The letters of a list of actions: the preferred action in upper case, the fallbacks in lower
/// case (`[Split, Stand]` is `Ps`).
pub fn to_letters(actions: &Vec<Action>) -> (s: String)
    ensures
        s@ == letters_of(actions@),
{
    let mut chars: Vec<char> = Vec::new();
    let mut i: usize = 0;
    while i < actions.len()
        invariant
            0 <= i <= actions@.len(),
            chars@ == letters_of(actions@.subrange(0, i as int)),
        decreases actions@.len() - i,
    {
        let c = match actions[i] {
            Action::Stand => if i == 0 { 'S' } else { 's' },
            Action::Hit => if i == 0 { 'H' } else { 'h' },
            Action::Double => if i == 0 { 'D' } else { 'd' },
            Action::Split => if i == 0 { 'P' } else { 'p' },
        };
        chars.push(c);
        i = i + 1;
        assert(chars@ =~= letters_of(actions@.subrange(0, i as int)));
    }
    assert(actions@.subrange(0, actions@.len() as int) =~= actions@);
    string_of(&chars)
}

/// The chart for one deck, dealer hits soft 17, no double after split, double on 10 and 11.
pub const CHART_1D_H17_NDAS_D10: &'static str = "Hard,2,3,4,5,6,7,8,9,10,A\n\
4,H,H,H,H,H,H,H,H,H,H\n\
5,H,H,H,H,H,H,H,H,H,H\n\
6,H,H,H,H,H,H,H,H,H,H\n\
7,H,H,H,H,H,H,H,H,H,H\n\
8,H,H,H,Dh,Dh,H,H,H,H,H\n\
9,Dh,Dh,Dh,Dh,Dh,H,H,H,H,H\n\
10,Dh,Dh,Dh,Dh,Dh,Dh,Dh,Dh,H,H\n\
11,Dh,Dh,Dh,Dh,Dh,Dh,Dh,Dh,Dh,Dh\n\
12,H,H,S,S,S,H,H,H,H,H\n\
13,S,S,S,S,S,H,H,H,H,H\n\
14,S,S,S,S,S,H,H,H,H,H\n\
15,S,S,S,S,S,H,H,H,H,H\n\
16,S,S,S,S,S,H,H,H,H,H\n\
17,S,S,S,S,S,S,S,S,S,S\n\
18,S,S,S,S,S,S,S,S,S,S\n\
19,S,S,S,S,S,S,S,S,S,S\n\
20,S,S,S,S,S,S,S,S,S,S\n\
21,S,S,S,S,S,S,S,S,S,S\n\
Soft,2,3,4,5,6,7,8,9,10,A\n\
12,H,H,H,H,H,H,H,H,H,H\n\
13,H,H,Dh,Dh,Dh,H,H,H,H,H\n\
14,H,H,Dh,Dh,Dh,H,H,H,H,H\n\
15,H,H,Dh,Dh,Dh,H,H,H,H,H\n\
16,H,H,Dh,Dh,Dh,H,H,H,H,H\n\
17,Dh,Dh,Dh,Dh,Dh,H,H,H,H,H\n\
18,S,Ds,Ds,Ds,Ds,S,S,H,H,H\n\
19,S,S,S,S,Ds,S,S,S,S,S\n\
20,S,S,S,S,S,S,S,S,S,S\n\
21,S,S,S,S,S,S,S,S,S,S\n\
Pair,2,3,4,5,6,7,8,9,10,A\n\
2,H,P,P,P,P,P,H,H,H,H\n\
3,H,H,P,P,P,P,H,H,H,H\n\
4,H,H,H,H,H,H,H,H,H,H\n\
5,Dh,Dh,Dh,Dh,Dh,Dh,Dh,Dh,H,H\n\
6,P,P,P,P,P,H,H,H,H,H\n\
7,P,P,P,P,P,P,H,H,S,H\n\
8,P,P,P,P,P,P,P,P,P,P\n\
9,P,P,P,P,P,S,P,P,S,S\n\
10,S,S,S,S,S,S,S,S,S,S\n\
A,P,P,P,P,P,P,P,P,P,P\n";

/// The chart for six decks, dealer hits soft 17, double after split, double on any two cards.
pub const CHART_6D_H17_DAS_DANY: &'static str = "Hard,2,3,4,5,6,7,8,9,10,A\n\
4,H,H,H,H,H,H,H,H,H,H\n\
5,H,H,H,H,H,H,H,H,H,H\n\
6,H,H,H,H,H,H,H,H,H,H\n\
7,H,H,H,H,H,H,H,H,H,H\n\
8,H,H,H,H,H,H,H,H,H,H\n\
9,H,Dh,Dh,Dh,Dh,H,H,H,H,H\n\
10,Dh,Dh,Dh,Dh,Dh,Dh,Dh,Dh,H,H\n\
11,Dh,Dh,Dh,Dh,Dh,Dh,Dh,Dh,Dh,Dh\n\
12,H,H,S,S,S,H,H,H,H,H\n\
13,S,S,S,S,S,H,H,H,H,H\n\
14,S,S,S,S,S,H,H,H,H,H\n\
15,S,S,S,S,S,H,H,H,H,H\n\
16,S,S,S,S,S,H,H,H,H,H\n\
17,S,S,S,S,S,S,S,S,S,S\n\
18,S,S,S,S,S,S,S,S,S,S\n\
19,S,S,S,S,S,S,S,S,S,S\n\
20,S,S,S,S,S,S,S,S,S,S\n\
21,S,S,S,S,S,S,S,S,S,S\n\
Soft,2,3,4,5,6,7,8,9,10,A\n\
12,H,H,H,H,H,H,H,H,H,H\n\
13,H,H,H,Dh,Dh,H,H,H,H,H\n\
14,H,H,H,Dh,Dh,H,H,H,H,H\n\
15,H,H,Dh,Dh,Dh,H,H,H,H,H\n\
16,H,H,Dh,Dh,Dh,H,H,H,H,H\n\
17,H,Dh,Dh,Dh,Dh,H,H,H,H,H\n\
18,Ds,Ds,Ds,Ds,Ds,S,S,H,H,H\n\
19,S,S,S,S,Ds,S,S,S,S,S\n\
20,S,S,S,S,S,S,S,S,S,S\n\
21,S,S,S,S,S,S,S,S,S,S\n\
Pair,2,3,4,5,6,7,8,9,10,A\n\
2,P,P,P,P,P,P,H,H,H,H\n\
3,P,P,P,P,P,P,H,H,H,H\n\
4,H,H,H,P,P,H,H,H,H,H\n\
5,Dh,Dh,Dh,Dh,Dh,Dh,Dh,Dh,H,H\n\
6,P,P,P,P,P,H,H,H,H,H\n\
7,P,P,P,P,P,P,H,H,H,H\n\
8,P,P,P,P,P,P,P,P,P,P\n\
9,P,P,P,P,P,S,P,P,S,S\n\
10,S,S,S,S,S,S,S,S,S,S\n\
A,P,P,P,P,P,P,P,P,P,P\n";

} // verus!
