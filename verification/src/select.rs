//! Selection of one response text for each category, by the mean of the
//! category and the thresholds of its response pools.

use vstd::prelude::*;
use crate::error::Error;
use crate::table::SectionTable;
use crate::chance::pick_index;
use crate::search::{first_where, lemma_first_where_found, lemma_first_where_none};
use crate::text::{
    chars_of, contains_text, join_parts, occurs, replaced, separated, string_of, substitute, texts,
    views,
};
use crate::text_map::{same_text, TextMap};

verus! {

/// Header of the column of questions.
pub const QUESTION_KEY: &'static str = "Vprašanje";

/// Header of the column of means.
pub const MEAN_KEY: &'static str = "Povprečje";

/// Header of the column of standard deviations.
pub const STD_KEY: &'static str = "Standardni odklon";

/// What a response text holds in place of the mean.
pub const MEAN_MARK: &'static str = "{MEAN}";

/// What a response text holds in place of the standard deviation.
pub const STD_MARK: &'static str = "{STD}";

/// What a template holds in place of the generated text.
pub const CONTENT_MARK: &'static str = "{AUTO_GEN}";

/// What selection reads of a number written in a text.
#[derive(Clone, Copy, Debug, PartialEq, Eq)]
pub struct Number {
    /// The place of the number among all numbers: a greater number has a
    /// greater rank, equal numbers have equal ranks.
    pub rank: i64,
    /// The number in ten-thousandths, cut off below that; 0 for a number
    /// below 0.
    pub scaled: u64,
}

/// Whether a threshold does not exceed a mean, both compared in
/// ten-thousandths.
pub open spec fn qualifies(threshold: Number, mean: Number) -> bool {
    threshold.scaled <= mean.scaled
}

/// Whether the threshold at `i` is the one selected for `mean`: it
/// qualifies, no qualifying threshold is greater, and no equal one stands
/// before it.
pub open spec fn is_selected(values: Seq<Number>, mean: Number, i: int) -> bool {
    &&& 0 <= i < values.len()
    &&& qualifies(values[i], mean)
    &&& forall|j: int|
        0 <= j < values.len() && qualifies(#[trigger] values[j], mean) ==> values[j].rank
            < values[i].rank || (values[j].rank == values[i].rank && i <= j)
}

/// At most one threshold is selected.
pub proof fn lemma_selected_unique(values: Seq<Number>, mean: Number, i: int, j: int)
    requires
        is_selected(values, mean, i),
        is_selected(values, mean, j),
    ensures
        i == j,
{
    assert(qualifies(values[i], mean));
    assert(qualifies(values[j], mean));
}

/// Where a threshold qualifies, one is selected.
pub proof fn lemma_selection_exists(values: Seq<Number>, mean: Number)
    requires
        exists|j: int| 0 <= j < values.len() && qualifies(#[trigger] values[j], mean),
    ensures
        exists|i: int| is_selected(values, mean, i),
    decreases values.len(),
{
    let last = values.len() - 1;
    let shorter = values.drop_last();
    if exists|j: int| 0 <= j < shorter.len() && qualifies(#[trigger] shorter[j], mean) {
        lemma_selection_exists(shorter, mean);
        let i = choose|i: int| is_selected(shorter, mean, i);
        assert(shorter[i] == values[i]);
        if qualifies(values[last], mean) && values[last].rank > values[i].rank {
            assert forall|j: int|
                0 <= j < values.len() && qualifies(#[trigger] values[j], mean) implies values[j].rank
                < values[last].rank || (values[j].rank == values[last].rank && last <= j) by {
                if j < last {
                    assert(qualifies(shorter[j], mean));
                }
            }
            assert(is_selected(values, mean, last));
        } else {
            assert forall|j: int|
                0 <= j < values.len() && qualifies(#[trigger] values[j], mean) implies values[j].rank
                < values[i].rank || (values[j].rank == values[i].rank && i <= j) by {
                if j < last {
                    assert(qualifies(shorter[j], mean));
                }
            }
            assert(is_selected(values, mean, i));
        }
    } else {
        let j = choose|j: int| 0 <= j < values.len() && qualifies(#[trigger] values[j], mean);
        if j < last {
            assert(qualifies(shorter[j], mean));
        }
        assert forall|k: int|
            0 <= k < values.len() && qualifies(#[trigger] values[k], mean) implies values[k].rank
            < values[last].rank || (values[k].rank == values[last].rank && last <= k) by {
            if k < last {
                assert(qualifies(shorter[k], mean));
            }
        }
        assert(is_selected(values, mean, last));
    }
}

/// Finds the greatest threshold that does not exceed the mean, the first of
/// several equal ones.
pub fn select_threshold(values: &Vec<Number>, mean: Number) -> (r: Option<usize>)
    ensures
        match r {
            Some(i) => is_selected(values@, mean, i as int),
            None => forall|j: int| 0 <= j < values@.len() ==> !qualifies(#[trigger] values@[j], mean),
        },
{
    let mut best: Option<usize> = None;
    let mut k: usize = 0;
    while k < values.len()
        invariant
            k <= values.len(),
            match best {
                Some(i) => is_selected(values@.take(k as int), mean, i as int),
                None => forall|j: int| 0 <= j < k ==> !qualifies(#[trigger] values@[j], mean),
            },
        decreases values.len() - k,
    {
        let ghost shorter = values@.take(k as int);
        let ghost longer = values@.take(k + 1);
        let v = values[k];
        proof {
            assert forall|j: int| 0 <= j < k implies longer[j] == shorter[j] by {}
            assert(longer[k as int] == v);
        }
        if v.scaled <= mean.scaled {
            match best {
                None => {
                    best = Some(k);
                    proof {
                        assert forall|j: int|
                            0 <= j < longer.len() && qualifies(#[trigger] longer[j], mean) implies j
                            == k by {
                            if j < k {
                                assert(longer[j] == values@[j]);
                            }
                        }
                    }
                },
                Some(i) => {
                    if v.rank > values[i].rank {
                        best = Some(k);
                        proof {
                            assert forall|j: int|
                                0 <= j < longer.len() && qualifies(
                                    #[trigger] longer[j],
                                    mean,
                                ) implies longer[j].rank < v.rank || (longer[j].rank == v.rank && k
                                <= j) by {
                                if j < k {
                                    assert(qualifies(shorter[j], mean));
                                }
                            }
                        }
                    } else {
                        proof {
                            assert forall|j: int|
                                0 <= j < longer.len() && qualifies(
                                    #[trigger] longer[j],
                                    mean,
                                ) implies longer[j].rank < longer[i as int].rank || (longer[j].rank
                                == longer[i as int].rank && i <= j) by {
                                if j < k {
                                    assert(qualifies(shorter[j], mean));
                                }
                            }
                        }
                    }
                },
            }
        } else {
            proof {
                match best {
                    Some(i) => {
                        assert forall|j: int|
                            0 <= j < longer.len() && qualifies(
                                #[trigger] longer[j],
                                mean,
                            ) implies longer[j].rank < longer[i as int].rank || (longer[j].rank
                            == longer[i as int].rank && i <= j) by {
                            if j < k {
                                assert(qualifies(shorter[j], mean));
                            }
                        }
                    },
                    None => {},
                }
            }
        }
        k += 1;
    }
    proof {
        assert(values@.take(k as int) == values@);
    }
    best
}

/// A pool of response texts with the threshold from which it applies.
#[derive(Clone, Debug, PartialEq, Eq)]
pub struct Threshold {
    /// The threshold as it is written.
    pub key: String,
    /// The texts of the pool; any of them may be chosen.
    pub responses: Vec<String>,
}

/// A category with its pools.
#[derive(Clone, Debug, PartialEq, Eq)]
pub struct Category {
    /// The name: the question that the category belongs to.
    pub name: String,
    /// The pools, in the order in which they were given.
    pub thresholds: Vec<Threshold>,
}

/// What is decided for one category.
pub enum Verdict {
    /// The pool of this threshold applies; the mean and the standard
    /// deviation are those of the row of the category.
    Selected { threshold: int, mean: Seq<char>, std: Seq<char> },
    /// No row of the column of questions holds the category.
    CategoryNotInCsv,
    /// The table has no column of means.
    MissingMeanColumn,
    /// The mean of the category, `value`, is no number.
    UnparseableMean { value: Seq<char> },
    /// The table has no column of standard deviations.
    MissingStdColumn,
    /// The threshold at this position is no number.
    UnparseableThreshold { threshold: int },
    /// Every threshold exceeds the mean, which is written `mean`.
    NoThresholdBelowMean { mean: Seq<char> },
    /// The pool of the selected threshold, at this position, is empty.
    EmptyResponsePool { threshold: int },
}

/// The thresholds of a category as numbers.
pub open spec fn threshold_values(numbers: Map<Seq<char>, Number>, cat: Category) -> Seq<Number> {
    Seq::new(cat.thresholds@.len(), |t: int| numbers[cat.thresholds@[t].key@])
}

/// The first row whose question is the category, if there is one.
pub open spec fn row_of(table: Map<Seq<char>, Seq<Seq<char>>>, cat: Category) -> Option<int> {
    if table.contains_key(QUESTION_KEY@) {
        first_where(
            table[QUESTION_KEY@].len() as int,
            |i: int| table[QUESTION_KEY@][i] == cat.name@,
        )
    } else {
        None
    }
}

/// The first threshold of the category that is no number, if there is one.
pub open spec fn bad_threshold(numbers: Map<Seq<char>, Number>, cat: Category) -> Option<int> {
    first_where(
        cat.thresholds@.len() as int,
        |t: int| !numbers.contains_key(cat.thresholds@[t].key@),
    )
}

/// Decides one category. `numbers` holds the texts that are numbers. The
/// row of the category is found first, then its mean, which must be a
/// number, then its standard deviation; then every threshold must be a
/// number, one of them must be selected, and its pool must not be empty.
pub open spec fn verdict(
    table: Map<Seq<char>, Seq<Seq<char>>>,
    numbers: Map<Seq<char>, Number>,
    cat: Category,
) -> Verdict {
    match row_of(table, cat) {
        None => Verdict::CategoryNotInCsv,
        Some(row) => if !table.contains_key(MEAN_KEY@) {
            Verdict::MissingMeanColumn
        } else if !numbers.contains_key(table[MEAN_KEY@][row]) {
            Verdict::UnparseableMean { value: table[MEAN_KEY@][row] }
        } else if !table.contains_key(STD_KEY@) {
            Verdict::MissingStdColumn
        } else {
            let mean = table[MEAN_KEY@][row];
            let std = table[STD_KEY@][row];
            match bad_threshold(numbers, cat) {
                Some(t) => Verdict::UnparseableThreshold { threshold: t },
                None => {
                    let values = threshold_values(numbers, cat);
                    if exists|t: int| is_selected(values, numbers[mean], t) {
                        let t = choose|t: int| is_selected(values, numbers[mean], t);
                        if cat.thresholds@[t].responses@.len() == 0 {
                            Verdict::EmptyResponsePool { threshold: t }
                        } else {
                            Verdict::Selected { threshold: t, mean, std }
                        }
                    } else {
                        Verdict::NoThresholdBelowMean { mean }
                    }
                },
            }
        },
    }
}

/// The pool that is decided for a category is that of the greatest
/// threshold that does not exceed the mean of the category, and it is not
/// empty.
pub proof fn lemma_selected_pool(
    table: Map<Seq<char>, Seq<Seq<char>>>,
    numbers: Map<Seq<char>, Number>,
    cat: Category,
)
    requires
        verdict(table, numbers, cat) is Selected,
    ensures
        ({
            let v = verdict(table, numbers, cat);
            &&& numbers.contains_key(v->Selected_mean)
            &&& is_selected(
                threshold_values(numbers, cat),
                numbers[v->Selected_mean],
                v->Selected_threshold,
            )
            &&& cat.thresholds@[v->Selected_threshold].responses@.len() > 0
        }),
{
}

/// A category fails for want of a threshold only if every one of its
/// thresholds exceeds its mean.
pub proof fn lemma_no_threshold_below_mean(
    table: Map<Seq<char>, Seq<Seq<char>>>,
    numbers: Map<Seq<char>, Number>,
    cat: Category,
)
    requires
        verdict(table, numbers, cat) is NoThresholdBelowMean,
    ensures
        ({
            let mean = verdict(table, numbers, cat)->NoThresholdBelowMean_mean;
            forall|t: int|
                0 <= t < cat.thresholds@.len() ==> !qualifies(
                    #[trigger] threshold_values(numbers, cat)[t],
                    numbers[mean],
                )
        }),
{
    let mean = verdict(table, numbers, cat)->NoThresholdBelowMean_mean;
    let values = threshold_values(numbers, cat);
    if exists|t: int| 0 <= t < values.len() && qualifies(#[trigger] values[t], numbers[mean]) {
        lemma_selection_exists(values, numbers[mean]);
    }
}

/// Whether `e` reports the failure `v` of the category `cat`.
pub open spec fn reports(e: Error, v: Verdict, cat: Category) -> bool {
    match v {
        Verdict::Selected { .. } => false,
        Verdict::CategoryNotInCsv => e matches Error::CategoryNotInCsv { category } && category@
            == cat.name@,
        Verdict::MissingMeanColumn => e == Error::MissingMeanColumn,
        Verdict::UnparseableMean { value: v } => e matches Error::UnparseableMean {
            category,
            value,
        } && category@ == cat.name@ && value@ == v,
        Verdict::MissingStdColumn => e == Error::MissingStdColumn,
        Verdict::UnparseableThreshold { threshold: t } => e matches Error::UnparseableThreshold {
            category,
            threshold,
        } && category@ == cat.name@ && threshold@ == cat.thresholds@[t].key@,
        Verdict::NoThresholdBelowMean { mean: m } => e matches Error::NoThresholdBelowMean {
            category,
            mean,
        } && category@ == cat.name@ && mean@ == m,
        Verdict::EmptyResponsePool { threshold: t } => e matches Error::EmptyResponsePool {
            category,
            threshold,
        } && category@ == cat.name@ && threshold@ == cat.thresholds@[t].key@,
    }
}

/// The pool selected for a category, with what is put into its texts.
pub struct Selection {
    /// Position of the selected threshold among those of the category.
    pub threshold: usize,
    /// The mean as the table writes it.
    pub mean: String,
    /// The standard deviation as the table writes it.
    pub std: String,
}

/// Decides one category: finds its row, reads its mean and its standard
/// deviation, and selects the threshold whose pool applies.
#[verifier::loop_isolation(false)]
pub fn decide(table: &SectionTable, numbers: &TextMap<Number>, cat: &Category) -> (r: Result<
    Selection,
    Error,
>)
    requires
        table.wf(),
        numbers.wf(),
    ensures
        match r {
            Ok(s) => verdict(table@, numbers@, *cat) == (Verdict::Selected {
                threshold: s.threshold as int,
                mean: s.mean@,
                std: s.std@,
            }),
            Err(e) => reports(e, verdict(table@, numbers@, *cat), *cat),
        },
{
    let questions = match table.column(QUESTION_KEY) {
        Some(q) => q,
        None => {
            return Err(Error::CategoryNotInCsv { category: cat.name.clone() });
        },
    };
    let ghost is_cat = |i: int| table@[QUESTION_KEY@][i] == cat.name@;
    let mut row: usize = 0;
    while row < questions.len() && !same_text(questions[row].as_str(), cat.name.as_str())
        invariant
            row <= questions@.len(),
            texts(questions@) == table@[QUESTION_KEY@],
            is_cat == |i: int| table@[QUESTION_KEY@][i] == cat.name@,
            forall|j: int| 0 <= j < row ==> !#[trigger] is_cat(j),
        decreases questions.len() - row,
    {
        assert(texts(questions@)[row as int] == questions@[row as int]@);
        row += 1;
    }
    if row >= questions.len() {
        proof {
            lemma_first_where_none(questions@.len() as int, is_cat);
        }
        return Err(Error::CategoryNotInCsv { category: cat.name.clone() });
    }
    proof {
        assert(texts(questions@)[row as int] == questions@[row as int]@);
        lemma_first_where_found(questions@.len() as int, is_cat, row as int);
    }
    let means = match table.column(MEAN_KEY) {
        Some(m) => m,
        None => {
            return Err(Error::MissingMeanColumn);
        },
    };
    let mean_text = &means[row];
    assert(texts(means@)[row as int] == mean_text@);
    let mean = match numbers.get(mean_text.as_str()) {
        Some(n) => *n,
        None => {
            return Err(
                Error::UnparseableMean { category: cat.name.clone(), value: mean_text.clone() },
            );
        },
    };
    let stds = match table.column(STD_KEY) {
        Some(s) => s,
        None => {
            return Err(Error::MissingStdColumn);
        },
    };
    let std_text = &stds[row];
    assert(texts(stds@)[row as int] == std_text@);
    let ghost is_bad = |t: int| !numbers@.contains_key(cat.thresholds@[t].key@);
    let mut values: Vec<Number> = Vec::new();
    let mut t: usize = 0;
    while t < cat.thresholds.len()
        invariant
            t <= cat.thresholds@.len(),
            numbers.wf(),
            is_bad == |t: int| !numbers@.contains_key(cat.thresholds@[t].key@),
            forall|j: int| 0 <= j < t ==> !#[trigger] is_bad(j),
            values@.len() == t,
            forall|j: int| 0 <= j < t ==> values@[j] == numbers@[cat.thresholds@[j].key@],
        decreases cat.thresholds.len() - t,
    {
        match numbers.get(cat.thresholds[t].key.as_str()) {
            Some(n) => {
                values.push(*n);
            },
            None => {
                proof {
                    lemma_first_where_found(cat.thresholds@.len() as int, is_bad, t as int);
                }
                return Err(
                    Error::UnparseableThreshold {
                        category: cat.name.clone(),
                        threshold: cat.thresholds[t].key.clone(),
                    },
                );
            },
        }
        t += 1;
    }
    proof {
        lemma_first_where_none(cat.thresholds@.len() as int, is_bad);
        assert(values@ =~= threshold_values(numbers@, *cat));
    }
    match select_threshold(&values, mean) {
        None => {
            proof {
                assert forall|t: int| !is_selected(values@, mean, t) by {
                    if is_selected(values@, mean, t) {
                        assert(qualifies(values@[t], mean));
                    }
                }
            }
            Err(Error::NoThresholdBelowMean { category: cat.name.clone(), mean: mean_text.clone() })
        },
        Some(chosen) => {
            proof {
                let c = choose|t: int| is_selected(values@, mean, t);
                lemma_selected_unique(values@, mean, c, chosen as int);
            }
            if cat.thresholds[chosen].responses.len() == 0 {
                Err(
                    Error::EmptyResponsePool {
                        category: cat.name.clone(),
                        threshold: cat.thresholds[chosen].key.clone(),
                    },
                )
            } else {
                Ok(Selection { threshold: chosen, mean: mean_text.clone(), std: std_text.clone() })
            }
        },
    }
}

/// A response text with the mean and the standard deviation put in place of
/// their marks: first every mark of the mean, then every mark of the
/// standard deviation.
pub open spec fn filled(response: Seq<char>, mean: Seq<char>, std: Seq<char>) -> Seq<char> {
    replaced(replaced(response, MEAN_MARK@, mean), STD_MARK@, std)
}

/// Puts the mean and the standard deviation into a response text.
pub fn fill(response: &str, mean: &str, std: &str) -> (r: String)
    ensures
        r@ == filled(response@, mean@, std@),
{
    let with_mean = substitute(&chars_of(response), &chars_of(MEAN_MARK), &chars_of(mean));
    let with_both = substitute(&with_mean, &chars_of(STD_MARK), &chars_of(std));
    string_of(&with_both)
}

/// The text given for a category whose pool at `threshold` was selected,
/// when `pick` chooses among the texts of the pool: the text at `pick`,
/// counted around the pool, filled in. Empty where there is no such pool or
/// the pool is empty.
pub open spec fn response_text(
    cat: Category,
    threshold: int,
    pick: int,
    mean: Seq<char>,
    std: Seq<char>,
) -> Seq<char> {
    if 0 <= threshold < cat.thresholds@.len() && cat.thresholds@[threshold].responses@.len() > 0 {
        let pool = cat.thresholds@[threshold].responses@;
        filled(pool[pick % (pool.len() as int)]@, mean, std)
    } else {
        Seq::empty()
    }
}

/// Gives the text for a category from the selected pool.
pub fn respond(cat: &Category, selection: &Selection, pick: usize) -> (r: String)
    ensures
        r@ == response_text(
            *cat,
            selection.threshold as int,
            pick as int,
            selection.mean@,
            selection.std@,
        ),
{
    if selection.threshold < cat.thresholds.len() {
        let pool = &cat.thresholds[selection.threshold].responses;
        if pool.len() > 0 {
            return fill(
                pool[pick % pool.len()].as_str(),
                selection.mean.as_str(),
                selection.std.as_str(),
            );
        }
    }
    String::new()
}

/// The choice made for category `c`: the one given for it, or 0.
pub open spec fn pick_at(picks: Seq<usize>, c: int) -> int {
    if 0 <= c < picks.len() {
        picks[c] as int
    } else {
        0
    }
}

/// The text for one category under the choice `pick`.
pub open spec fn part(
    table: Map<Seq<char>, Seq<Seq<char>>>,
    numbers: Map<Seq<char>, Number>,
    cat: Category,
    pick: int,
) -> Seq<char> {
    match verdict(table, numbers, cat) {
        Verdict::Selected { threshold, mean, std } => response_text(cat, threshold, pick, mean, std),
        _ => Seq::empty(),
    }
}

/// The texts for the categories, in their order.
pub open spec fn parts(
    table: Map<Seq<char>, Seq<Seq<char>>>,
    numbers: Map<Seq<char>, Number>,
    cats: Seq<Category>,
    picks: Seq<usize>,
) -> Seq<Seq<char>> {
    Seq::new(cats.len(), |c: int| part(table, numbers, cats[c], pick_at(picks, c)))
}

/// The first category that fails, if one does.
pub open spec fn first_failure(
    table: Map<Seq<char>, Seq<Seq<char>>>,
    numbers: Map<Seq<char>, Number>,
    cats: Seq<Category>,
) -> Option<int> {
    first_where(cats.len() as int, |c: int| !(verdict(table, numbers, cats[c]) is Selected))
}

/// What separates the texts of two categories: a blank line.
pub open spec fn blank_line() -> Seq<char> {
    seq!['\n', '\n']
}

/// Whether `r` is the outcome for the categories under the choices `picks`:
/// the failure of the first category that fails, or else the texts of all
/// categories with a blank line between each two.
pub open spec fn is_report(
    table: Map<Seq<char>, Seq<Seq<char>>>,
    numbers: Map<Seq<char>, Number>,
    cats: Seq<Category>,
    picks: Seq<usize>,
    r: Result<String, Error>,
) -> bool {
    match first_failure(table, numbers, cats) {
        Some(c) => r matches Err(e) && reports(e, verdict(table, numbers, cats[c]), cats[c]),
        None => r matches Ok(text) && text@ == separated(
            parts(table, numbers, cats, picks),
            blank_line(),
        ),
    }
}

/// Whether `r` holds the text of each category under the choices `picks`,
/// or the failure of the first category that fails.
pub open spec fn is_selection(
    table: Map<Seq<char>, Seq<Seq<char>>>,
    numbers: Map<Seq<char>, Number>,
    cats: Seq<Category>,
    picks: Seq<usize>,
    r: Result<Vec<String>, Error>,
) -> bool {
    match first_failure(table, numbers, cats) {
        Some(c) => r matches Err(e) && reports(e, verdict(table, numbers, cats[c]), cats[c]),
        None => r matches Ok(found) && texts(found@) == parts(table, numbers, cats, picks),
    }
}

/// Selects a response text for each category and gives the texts in the
/// order of the categories. The choice among the texts of a pool is given
/// by the caller: `picks` holds one number for each category, counted
/// around the pool; a category without a number gets the first text. The
/// first category that fails ends the selection.
#[verifier::loop_isolation(false)]
pub fn category_responses_with(
    table: &SectionTable,
    numbers: &TextMap<Number>,
    categories: &Vec<Category>,
    picks: &Vec<usize>,
) -> (r: Result<Vec<String>, Error>)
    requires
        table.wf(),
        numbers.wf(),
    ensures
        is_selection(table@, numbers@, categories@, picks@, r),
{
    let ghost fails = |c: int| !(verdict(table@, numbers@, categories@[c]) is Selected);
    let ghost all = parts(table@, numbers@, categories@, picks@);
    let mut found: Vec<String> = Vec::new();
    let mut c: usize = 0;
    while c < categories.len()
        invariant
            c <= categories@.len(),
            forall|j: int| 0 <= j < c ==> !#[trigger] fails(j),
            texts(found@) == all.take(c as int),
        decreases categories.len() - c,
    {
        match decide(table, numbers, &categories[c]) {
            Err(e) => {
                proof {
                    lemma_first_where_found(categories@.len() as int, fails, c as int);
                }
                return Err(e);
            },
            Ok(selection) => {
                let pick = if c < picks.len() {
                    picks[c]
                } else {
                    0
                };
                found.push(respond(&categories[c], &selection, pick));
                proof {
                    assert(texts(found@) =~= all.take(c + 1));
                }
            },
        }
        c += 1;
    }
    proof {
        lemma_first_where_none(categories@.len() as int, fails);
        assert(all.take(c as int) == all);
    }
    Ok(found)
}

/// Selects a response text for each category and joins the texts with a
/// blank line between each two. The choice among the texts of a pool is
/// given by the caller, as for `category_responses_with`.
pub fn select_responses_with(
    table: &SectionTable,
    numbers: &TextMap<Number>,
    categories: &Vec<Category>,
    picks: &Vec<usize>,
) -> (r: Result<String, Error>)
    requires
        table.wf(),
        numbers.wf(),
    ensures
        is_report(table@, numbers@, categories@, picks@, r),
{
    let found = match category_responses_with(table, numbers, categories, picks) {
        Ok(found) => found,
        Err(e) => {
            return Err(e);
        },
    };
    let mut all: Vec<Vec<char>> = Vec::new();
    let mut c: usize = 0;
    while c < found.len()
        invariant
            c <= found@.len(),
            views(all@) == texts(found@).take(c as int),
        decreases found.len() - c,
    {
        let ghost before = views(all@);
        all.push(chars_of(found[c].as_str()));
        proof {
            assert(views(all@) =~= before.push(found@[c as int]@));
            assert(before.push(found@[c as int]@) =~= texts(found@).take(c + 1));
        }
        c += 1;
    }
    proof {
        assert(texts(found@).take(c as int) == texts(found@));
    }
    let mut sep: Vec<char> = Vec::new();
    sep.push('\n');
    sep.push('\n');
    assert(sep@ =~= blank_line());
    Ok(string_of(&join_parts(&all, &sep)))
}

/// Draws a choice for each category, up to the first category that fails.
pub(crate) fn draw_picks(
    table: &SectionTable,
    numbers: &TextMap<Number>,
    categories: &Vec<Category>,
) -> (picks: Vec<usize>)
    requires
        table.wf(),
        numbers.wf(),
    ensures
        picks@.len() == drawn(table@, numbers@, categories@),
        forall|c: int|
            0 <= c < picks@.len() ==> (#[trigger] picks@[c]) < pool_size(
                table@,
                numbers@,
                categories@[c],
            ),
{
    let ghost fails = |c: int| !(verdict(table@, numbers@, categories@[c]) is Selected);
    let ghost mut stop: Option<int> = None;
    let mut picks: Vec<usize> = Vec::new();
    let mut c: usize = 0;
    while c < categories.len()
        invariant
            c <= categories@.len(),
            table.wf(),
            numbers.wf(),
            fails == |c: int| !(verdict(table@, numbers@, categories@[c]) is Selected),
            match stop {
                None => picks@.len() == c && forall|j: int| 0 <= j < c ==> !#[trigger] fails(j),
                Some(f) => c == categories@.len() && picks@.len() == f && first_failure(
                    table@,
                    numbers@,
                    categories@,
                ) == Some(f),
            },
            forall|k: int|
                0 <= k < picks@.len() ==> (#[trigger] picks@[k]) < pool_size(
                    table@,
                    numbers@,
                    categories@[k],
                ),
        decreases categories.len() - c,
    {
        match decide(table, numbers, &categories[c]) {
            Err(_) => {
                proof {
                    lemma_first_where_found(categories@.len() as int, fails, c as int);
                    stop = Some(c as int);
                }
                c = categories.len();
            },
            Ok(selection) => {
                proof {
                    lemma_selected_pool(table@, numbers@, categories@[c as int]);
                }
                let pool = &categories[c].thresholds[selection.threshold].responses;
                picks.push(pick_index(pool.len()));
                c += 1;
            },
        }
    }
    proof {
        if stop is None {
            lemma_first_where_none(categories@.len() as int, fails);
        }
    }
    picks
}

/// How many categories get a choice: those before the first that fails.
pub open spec fn drawn(
    table: Map<Seq<char>, Seq<Seq<char>>>,
    numbers: Map<Seq<char>, Number>,
    cats: Seq<Category>,
) -> int {
    match first_failure(table, numbers, cats) {
        Some(c) => c,
        None => cats.len() as int,
    }
}

/// The number of texts in the pool selected for a category; 0 where none
/// is selected.
pub open spec fn pool_size(
    table: Map<Seq<char>, Seq<Seq<char>>>,
    numbers: Map<Seq<char>, Number>,
    cat: Category,
) -> int {
    match verdict(table, numbers, cat) {
        Verdict::Selected { threshold, .. } => cat.thresholds@[threshold].responses@.len() as int,
        _ => 0,
    }
}

/// Selects a response text for each category, choosing among the texts of a
/// pool at random. Whether the selection fails, and how, does not depend on
/// chance.
pub fn select_responses(
    table: &SectionTable,
    numbers: &TextMap<Number>,
    categories: &Vec<Category>,
) -> (r: Result<String, Error>)
    requires
        table.wf(),
        numbers.wf(),
    ensures
        exists|picks: Seq<usize>| is_report(table@, numbers@, categories@, picks, r),
{
    let picks = draw_picks(table, numbers, categories);
    let r = select_responses_with(table, numbers, categories, &picks);
    assert(is_report(table@, numbers@, categories@, picks@, r));
    r
}

/// Tells whether a template marks where the generated text goes.
pub fn marks_content(template: &str) -> (r: bool)
    ensures
        r == occurs(template@, CONTENT_MARK@),
{
    contains_text(&chars_of(template), &chars_of(CONTENT_MARK))
}

/// Puts the generated text into a template, in place of each mark for it.
/// A template without the mark is an error.
pub fn inject(template: &str, content: &str) -> (r: Result<String, Error>)
    ensures
        match r {
            Ok(text) => occurs(template@, CONTENT_MARK@) && text@ == replaced(
                template@,
                CONTENT_MARK@,
                content@,
            ),
            Err(e) => !occurs(template@, CONTENT_MARK@) && e == Error::TemplateMarkerMissing,
        },
{
    let text = chars_of(template);
    let mark = chars_of(CONTENT_MARK);
    if !contains_text(&text, &mark) {
        return Err(Error::TemplateMarkerMissing);
    }
    Ok(string_of(&substitute(&text, &mark, &chars_of(content))))
}

} // verus!
