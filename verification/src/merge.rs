//! Gathering of the means of several exports, question by question.

use vstd::prelude::*;
use crate::error::Error;
use crate::text::texts;
use crate::records::{encode_record, record_line};
use crate::search::{first_where, lemma_first_where_found, lemma_first_where_none};
use crate::select::{Number, MEAN_KEY, QUESTION_KEY, STD_KEY};
use crate::table::SectionTable;
use crate::text::{chars_of, string_of};
use crate::text_map::TextMap;

verus! {

/// The least number of exports that can be merged.
pub const MIN_FILES: usize = 2;

/// The mean of each question in the first `n` rows, a later row taking the
/// place of an earlier one with the same question.
pub open spec fn row_means(
    questions: Seq<Seq<char>>,
    means: Seq<Seq<char>>,
    n: int,
) -> Map<Seq<char>, Seq<char>>
    decreases n,
{
    if n <= 0 {
        Map::empty()
    } else {
        row_means(questions, means, n - 1).insert(questions[n - 1], means[n - 1])
    }
}

/// What one export gives to a merge.
pub enum FileVerdict {
    /// The mean of each of its questions.
    Means(Map<Seq<char>, Seq<char>>),
    /// The table has no column of questions.
    MissingQuestionColumn,
    /// The table has no column of means.
    MissingMeanColumn,
    /// The mean in this row is no number.
    UnparseableMean { row: int },
}

/// Reads the means of one export. `numbers` holds the texts that are
/// numbers; the mean of every row must be one.
pub open spec fn file_verdict(
    table: Map<Seq<char>, Seq<Seq<char>>>,
    numbers: Map<Seq<char>, Number>,
) -> FileVerdict {
    if !table.contains_key(QUESTION_KEY@) {
        FileVerdict::MissingQuestionColumn
    } else if !table.contains_key(MEAN_KEY@) {
        FileVerdict::MissingMeanColumn
    } else {
        let questions = table[QUESTION_KEY@];
        let means = table[MEAN_KEY@];
        match first_where(questions.len() as int, |i: int| !numbers.contains_key(means[i])) {
            Some(i) => FileVerdict::UnparseableMean { row: i },
            None => FileVerdict::Means(row_means(questions, means, questions.len() as int)),
        }
    }
}

/// Whether `e` reports the failure `v` of an export with this table.
pub open spec fn file_reports(
    e: Error,
    v: FileVerdict,
    table: Map<Seq<char>, Seq<Seq<char>>>,
) -> bool {
    match v {
        FileVerdict::Means(_) => false,
        FileVerdict::MissingQuestionColumn => e == Error::MissingQuestionColumn,
        FileVerdict::MissingMeanColumn => e == Error::MissingMeanColumn,
        FileVerdict::UnparseableMean { row } => e matches Error::UnparseableMean { category, value }
            && category@ == table[QUESTION_KEY@][row] && value@ == table[MEAN_KEY@][row],
    }
}

/// Whether `m` holds the texts of `s` under the same keys.
pub open spec fn holds_texts(m: Map<Seq<char>, String>, s: Map<Seq<char>, Seq<char>>) -> bool {
    &&& forall|k: Seq<char>| m.contains_key(k) <==> s.contains_key(k)
    &&& forall|k: Seq<char>| s.contains_key(k) ==> (#[trigger] m[k])@ == s[k]
}

/// Reads the mean of each question of one export.
#[verifier::loop_isolation(false)]
pub fn question_means(table: &SectionTable, numbers: &TextMap<Number>) -> (r: Result<
    TextMap<String>,
    Error,
>)
    requires
        table.wf(),
        numbers.wf(),
    ensures
        match r {
            Ok(m) => {
                &&& m.wf()
                &&& file_verdict(table@, numbers@) matches FileVerdict::Means(s)
                &&& holds_texts(m@, s)
            },
            Err(e) => file_reports(e, file_verdict(table@, numbers@), table@),
        },
{
    let questions = match table.column(QUESTION_KEY) {
        Some(q) => q,
        None => {
            return Err(Error::MissingQuestionColumn);
        },
    };
    let means = match table.column(MEAN_KEY) {
        Some(m) => m,
        None => {
            return Err(Error::MissingMeanColumn);
        },
    };
    let ghost qs = table@[QUESTION_KEY@];
    let ghost ms = table@[MEAN_KEY@];
    let ghost bad = |i: int| !numbers@.contains_key(ms[i]);
    let mut map: TextMap<String> = TextMap::new();
    let mut i: usize = 0;
    while i < questions.len()
        invariant
            i <= questions@.len(),
            map.wf(),
            forall|j: int| 0 <= j < i ==> !#[trigger] bad(j),
            holds_texts(map@, row_means(qs, ms, i as int)),
        decreases questions.len() - i,
    {
        assert(texts(questions@)[i as int] == questions@[i as int]@);
        assert(texts(means@)[i as int] == means@[i as int]@);
        if !numbers.contains_key(means[i].as_str()) {
            proof {
                lemma_first_where_found(qs.len() as int, bad, i as int);
            }
            return Err(
                Error::UnparseableMean { category: questions[i].clone(), value: means[i].clone() },
            );
        }
        map.insert(questions[i].as_str(), means[i].clone());
        i += 1;
    }
    proof {
        lemma_first_where_none(qs.len() as int, bad);
    }
    Ok(map)
}

/// The means that the first `n` exports hold for the question `k`, in the
/// order of the exports. An export without the question gives none.
pub open spec fn samples(files: Seq<Map<Seq<char>, Seq<char>>>, n: int, k: Seq<char>) -> Seq<
    Seq<char>,
>
    decreases n,
{
    if n <= 0 {
        Seq::empty()
    } else if files[n - 1].contains_key(k) {
        samples(files, n - 1, k).push(files[n - 1][k])
    } else {
        samples(files, n - 1, k)
    }
}

/// Whether one of the first `n` exports holds the question `k`.
pub open spec fn asked(files: Seq<Map<Seq<char>, Seq<char>>>, n: int, k: Seq<char>) -> bool {
    exists|f: int| 0 <= f < n && (#[trigger] files[f]).contains_key(k)
}

/// A question that no export holds has no samples, and one that an export
/// holds has at least one.
pub proof fn lemma_samples_asked(files: Seq<Map<Seq<char>, Seq<char>>>, n: int, k: Seq<char>)
    requires
        0 <= n <= files.len(),
    ensures
        asked(files, n, k) <==> samples(files, n, k).len() > 0,
    decreases n,
{
    if n > 0 {
        lemma_samples_asked(files, n - 1, k);
        if asked(files, n, k) && !files[n - 1].contains_key(k) {
            let f = choose|f: int| 0 <= f < n && (#[trigger] files[f]).contains_key(k);
            assert(0 <= f < n - 1 && files[f].contains_key(k));
        }
        if asked(files, n - 1, k) {
            let f = choose|f: int| 0 <= f < n - 1 && (#[trigger] files[f]).contains_key(k);
            assert(0 <= f < n && files[f].contains_key(k));
        }
        if files[n - 1].contains_key(k) {
            assert(0 <= n - 1 < n && files[n - 1].contains_key(k));
        }
    }
}

/// The means of each export.
pub open spec fn file_means(tables: Seq<SectionTable>, numbers: Map<Seq<char>, Number>) -> Seq<
    Map<Seq<char>, Seq<char>>,
> {
    Seq::new(tables.len(), |f: int| file_verdict(tables[f]@, numbers)->Means_0)
}

/// The first export that fails, if one does.
pub open spec fn first_bad_file(
    tables: Seq<SectionTable>,
    numbers: Map<Seq<char>, Number>,
) -> Option<int> {
    first_where(tables.len() as int, |f: int| !(file_verdict(tables[f]@, numbers) is Means))
}

/// Whether `g` holds, for each question of the first `n` exports, its
/// samples.
pub open spec fn holds_samples(
    g: Map<Seq<char>, Vec<String>>,
    files: Seq<Map<Seq<char>, Seq<char>>>,
    n: int,
) -> bool {
    &&& forall|k: Seq<char>| g.contains_key(k) <==> asked(files, n, k)
    &&& forall|k: Seq<char>| g.contains_key(k) ==> texts(#[trigger] g[k]@) == samples(files, n, k)
}

/// The sample of one export for `k`, if `k` is among `keys`.
pub open spec fn sample_of(keys: Seq<Seq<char>>, file: Map<Seq<char>, Seq<char>>, k: Seq<char>) -> Seq<
    Seq<char>,
> {
    if keys.contains(k) {
        seq![file[k]]
    } else {
        Seq::empty()
    }
}

/// What the first `i + 1` keys hold: what the first `i` hold, and the key
/// at `i`.
proof fn lemma_take_one_more(keys: Seq<Seq<char>>, i: int, k: Seq<char>)
    requires
        0 <= i < keys.len(),
    ensures
        keys.take(i + 1).contains(k) <==> keys.take(i).contains(k) || keys[i] == k,
{
    let shorter = keys.take(i);
    let longer = keys.take(i + 1);
    if longer.contains(k) {
        let j = choose|j: int| 0 <= j < longer.len() && longer[j] == k;
        if j < i {
            assert(shorter[j] == k);
        }
    }
    if shorter.contains(k) {
        let j = choose|j: int| 0 <= j < shorter.len() && shorter[j] == k;
        assert(longer[j] == k);
    }
    if keys[i] == k {
        assert(longer[i] == k);
    }
}

/// A copy of `values` with `last` added at its end.
fn copy_with(values: &Vec<String>, last: &String) -> (r: Vec<String>)
    ensures
        texts(r@) == texts(values@).push(last@),
{
    let mut r: Vec<String> = Vec::new();
    let mut i: usize = 0;
    while i < values.len()
        invariant
            i <= values.len(),
            r@.len() == i,
            forall|j: int| 0 <= j < i ==> r@[j]@ == values@[j]@,
        decreases values.len() - i,
    {
        r.push(values[i].clone());
        i += 1;
    }
    r.push(last.clone());
    assert(texts(r@) =~= texts(values@).push(last@));
    r
}

/// Adds the means of one export to the samples gathered so far.
fn add_file(
    groups: &mut TextMap<Vec<String>>,
    means: &TextMap<String>,
    Ghost(files): Ghost<Seq<Map<Seq<char>, Seq<char>>>>,
    Ghost(n): Ghost<int>,
)
    requires
        old(groups).wf(),
        means.wf(),
        0 <= n < files.len(),
        holds_texts(means@, files[n]),
        holds_samples(old(groups)@, files, n),
    ensures
        final(groups).wf(),
        holds_samples(final(groups)@, files, n + 1),
{
    let ghost file = files[n];
    let ghost keys = means.key_seq();
    proof {
        means.lemma_keys();
    }
    let count = means.len();
    let mut i: usize = 0;
    while i < count
        invariant
            i <= count,
            count == keys.len(),
            keys == means.key_seq(),
            keys.no_duplicates(),
            means.wf(),
            groups.wf(),
            file == files[n],
            0 <= n < files.len(),
            holds_texts(means@, file),
            forall|k: Seq<char>| means@.contains_key(k) <==> keys.contains(k),
            forall|k: Seq<char>|
                groups@.contains_key(k) <==> asked(files, n, k) || keys.take(i as int).contains(k),
            forall|k: Seq<char>|
                groups@.contains_key(k) ==> texts(#[trigger] groups@[k]@) == samples(files, n, k)
                    + sample_of(keys.take(i as int), file, k),
        decreases count - i,
    {
        let ghost before = groups@;
        let ghost shorter = keys.take(i as int);
        let ghost longer = keys.take(i + 1);
        let (key, value) = means.entry(i);
        proof {
            assert(longer == shorter.push(key@));
            assert(!shorter.contains(key@)) by {
                if shorter.contains(key@) {
                    let j = choose|j: int| 0 <= j < shorter.len() && shorter[j] == key@;
                    assert(keys[j] == keys[i as int]);
                }
            }
            assert(keys.contains(key@)) by {
                assert(keys[i as int] == key@);
            }
            assert(longer.contains(key@)) by {
                assert(longer[i as int] == key@);
            }
            lemma_samples_asked(files, n, key@);
        }
        let grown = match groups.get(key.as_str()) {
            Some(values) => copy_with(values, value),
            None => {
                let mut one: Vec<String> = Vec::new();
                one.push(value.clone());
                assert(texts(one@) =~= Seq::<Seq<char>>::empty().push(value@));
                one
            },
        };
        proof {
            assert(texts(grown@) =~= samples(files, n, key@) + seq![file[key@]]);
        }
        groups.insert(key.as_str(), grown);
        proof {
            assert forall|k: Seq<char>|
                groups@.contains_key(k) <==> asked(files, n, k) || longer.contains(k) by {
                lemma_take_one_more(keys, i as int, k);
            }
            assert forall|k: Seq<char>| groups@.contains_key(k) implies texts(
                #[trigger] groups@[k]@,
            ) == samples(files, n, k) + sample_of(longer, file, k) by {
                lemma_take_one_more(keys, i as int, k);
            }
        }
        i += 1;
    }
    proof {
        assert(keys.take(i as int) == keys);
        assert forall|k: Seq<char>| groups@.contains_key(k) <==> asked(files, n + 1, k) by {
            if asked(files, n + 1, k) {
                let f = choose|f: int| 0 <= f < n + 1 && (#[trigger] files[f]).contains_key(k);
                if f < n {
                    assert(asked(files, n, k));
                }
            }
            if asked(files, n, k) {
                let f = choose|f: int| 0 <= f < n && (#[trigger] files[f]).contains_key(k);
                assert(0 <= f < n + 1 && files[f].contains_key(k));
            }
            if file.contains_key(k) {
                assert(0 <= n < n + 1 && files[n].contains_key(k));
            }
        }
        assert forall|k: Seq<char>| groups@.contains_key(k) implies texts(#[trigger] groups@[k]@)
            == samples(files, n + 1, k) by {
            if file.contains_key(k) {
                assert(samples(files, n, k) + seq![file[k]] =~= samples(files, n, k).push(
                    file[k],
                ));
            } else {
                assert(samples(files, n, k) + Seq::<Seq<char>>::empty() =~= samples(files, n, k));
            }
        }
    }
}

/// Tells whether `found` exports are enough for a merge.
pub fn check_file_count(found: usize) -> (r: Result<(), Error>)
    ensures
        match r {
            Ok(_) => found >= MIN_FILES,
            Err(e) => found < MIN_FILES && e == (Error::InsufficientFiles { found }),
        },
{
    if found < MIN_FILES {
        Err(Error::InsufficientFiles { found })
    } else {
        Ok(())
    }
}

/// Gathers, for each question, the means that the exports hold for it, in
/// the order of the exports. A question that an export lacks gets no sample
/// from it. Fewer than two exports are an error, and so is the first export
/// whose means cannot be read.
pub fn collect_means(tables: &Vec<SectionTable>, numbers: &TextMap<Number>) -> (r: Result<
    TextMap<Vec<String>>,
    Error,
>)
    requires
        forall|f: int| 0 <= f < tables@.len() ==> (#[trigger] tables@[f]).wf(),
        numbers.wf(),
    ensures
        match r {
            Ok(g) => {
                &&& tables@.len() >= MIN_FILES
                &&& first_bad_file(tables@, numbers@) is None
                &&& g.wf()
                &&& holds_samples(g@, file_means(tables@, numbers@), tables@.len() as int)
            },
            Err(Error::InsufficientFiles { found }) => tables@.len() < MIN_FILES && found
                == tables@.len(),
            Err(e) => {
                &&& tables@.len() >= MIN_FILES
                &&& first_bad_file(tables@, numbers@) matches Some(f)
                &&& file_reports(e, file_verdict(tables@[f]@, numbers@), tables@[f]@)
            },
        },
{
    match check_file_count(tables.len()) {
        Ok(_) => {},
        Err(e) => {
            return Err(e);
        },
    }
    let ghost files = file_means(tables@, numbers@);
    let ghost fails = |f: int| !(file_verdict(tables@[f]@, numbers@) is Means);
    let mut groups: TextMap<Vec<String>> = TextMap::new();
    let mut f: usize = 0;
    while f < tables.len()
        invariant
            f <= tables@.len(),
            tables@.len() >= MIN_FILES,
            numbers.wf(),
            forall|f: int| 0 <= f < tables@.len() ==> (#[trigger] tables@[f]).wf(),
            files == file_means(tables@, numbers@),
            fails == |f: int| !(file_verdict(tables@[f]@, numbers@) is Means),
            forall|j: int| 0 <= j < f ==> !#[trigger] fails(j),
            groups.wf(),
            holds_samples(groups@, files, f as int),
        decreases tables.len() - f,
    {
        match question_means(&tables[f], numbers) {
            Err(e) => {
                proof {
                    lemma_first_where_found(tables@.len() as int, fails, f as int);
                    assert(!(e matches Error::InsufficientFiles { .. }));
                }
                return Err(e);
            },
            Ok(means) => {
                add_file(&mut groups, &means, Ghost(files), Ghost(f as int));
            },
        }
        f += 1;
    }
    proof {
        lemma_first_where_none(tables@.len() as int, fails);
    }
    Ok(groups)
}

/// The merged statistics of one question, as they are written.
#[derive(Clone, Debug, PartialEq, Eq)]
pub struct MergedStat {
    /// The question.
    pub question: String,
    /// The mean of the means of the exports.
    pub mean: String,
    /// The standard deviation of the means of the exports.
    pub std: String,
}

/// The first `n` records, each written as a line, one after the other;
/// `None` if one of them cannot be written.
pub open spec fn written(rows: Seq<Seq<Seq<char>>>, n: int) -> Option<Seq<char>>
    decreases n,
{
    if n <= 0 {
        Some(Seq::empty())
    } else {
        match (written(rows, n - 1), record_line(rows[n - 1])) {
            (Some(before), Some(line)) => Some(before + line),
            _ => None,
        }
    }
}

/// The records of a merged section: the headers, then one record for each
/// question.
pub open spec fn merged_rows(stats: Seq<MergedStat>) -> Seq<Seq<Seq<char>>> {
    Seq::new(
        stats.len() + 1,
        |r: int|
            if r == 0 {
                seq![QUESTION_KEY@, MEAN_KEY@, STD_KEY@]
            } else {
                seq![stats[r - 1].question@, stats[r - 1].mean@, stats[r - 1].std@]
            },
    )
}

/// A merged section as text: its name on a line of its own, then its
/// records.
pub open spec fn merged(section: Seq<char>, stats: Seq<MergedStat>) -> Option<Seq<char>> {
    match written(merged_rows(stats), stats.len() as int + 1) {
        Some(lines) => Some(section.push('\n') + lines),
        None => None,
    }
}

/// Adds the line of one record to `out`, if the record can be written.
fn append_record(out: &mut Vec<char>, fields: &Vec<String>) -> (done: bool)
    ensures
        match record_line(texts(fields@)) {
            Some(line) => done && final(out)@ == old(out)@ + line,
            None => !done && final(out)@ == old(out)@,
        },
{
    let line = match encode_record(fields) {
        Some(line) => chars_of(line.as_str()),
        None => {
            return false;
        },
    };
    let ghost before = out@;
    let mut k: usize = 0;
    while k < line.len()
        invariant
            k <= line.len(),
            out@ == before + line@.take(k as int),
        decreases line.len() - k,
    {
        out.push(line[k]);
        k += 1;
    }
    assert(line@.take(k as int) == line@);
    true
}

/// Writes the merged statistics as a section that can be read again: the
/// name of the section, a record of headers, and one record for each
/// question. `None` if a record cannot be written.
pub fn merged_text(section: &str, stats: &Vec<MergedStat>) -> (r: Option<String>)
    ensures
        match r {
            Some(text) => merged(section@, stats@) == Some(text@),
            None => merged(section@, stats@) is None,
        },
{
    let ghost rows = merged_rows(stats@);
    let ghost start = section@.push('\n');
    let mut out = chars_of(section);
    out.push('\n');
    let mut headers: Vec<String> = Vec::new();
    headers.push(QUESTION_KEY.to_owned());
    headers.push(MEAN_KEY.to_owned());
    headers.push(STD_KEY.to_owned());
    assert(texts(headers@) =~= rows[0]);
    if !append_record(&mut out, &headers) {
        proof {
            lemma_written_fails(rows, 0, stats@.len() as int + 1);
        }
        return None;
    }
    assert(written(rows, 0) == Some(Seq::<char>::empty()));
    assert(start + (Seq::<char>::empty() + record_line(rows[0])->Some_0) == start + record_line(
        rows[0],
    )->Some_0);
    let mut i: usize = 0;
    while i < stats.len()
        invariant
            i <= stats@.len(),
            rows == merged_rows(stats@),
            start == section@.push('\n'),
            written(rows, i + 1) matches Some(lines) && out@ == start + lines,
        decreases stats.len() - i,
    {
        let mut fields: Vec<String> = Vec::new();
        fields.push(stats[i].question.clone());
        fields.push(stats[i].mean.clone());
        fields.push(stats[i].std.clone());
        assert(texts(fields@) =~= rows[i + 1]);
        let ghost lines = written(rows, i + 1)->Some_0;
        if !append_record(&mut out, &fields) {
            proof {
                lemma_written_fails(rows, i + 1, stats@.len() as int + 1);
            }
            return None;
        }
        assert((start + lines) + record_line(rows[i + 1])->Some_0 == start + (lines + record_line(
            rows[i + 1],
        )->Some_0));
        i += 1;
    }
    Some(string_of(&out))
}

/// If a record cannot be written, nothing that holds it can.
proof fn lemma_written_fails(rows: Seq<Seq<Seq<char>>>, r: int, n: int)
    requires
        0 <= r < n,
        record_line(rows[r]) is None,
    ensures
        written(rows, n) is None,
    decreases n,
{
    if r < n - 1 {
        lemma_written_fails(rows, r, n - 1);
    }
}

} // verus!
