use vstd::prelude::*;

use crate::row_writer::{rows_in, ColumnInfo, CompactValue, PyRowWriter};
use crate::text::{chars_of, digits_of, is_white_space, white_space_char, push_signed, signed_digits, string_of, trim_text, trimmed_of};
use crate::types::{py_to_sql_literal, sql_literal, HostParam};

verus! {

/// Alias of the single column that carries the echoed affected-row counter.
pub const ROWCOUNT_ALIAS: &'static str = "__rc__";

/// Table shape handed back by a query: column names, row-major cells, rows, columns.
pub type QueryResult = Option<(Vec<String>, Vec<CompactValue>, usize, usize)>;

/// `s` with every occurrence of `pat` replaced by `rep`, scanning from the left
/// and never re-reading replaced text.
pub open spec fn replace_all(s: Seq<char>, pat: Seq<char>, rep: Seq<char>) -> Seq<char>
    decreases s.len(),
{
    if pat.len() == 0 || s.len() == 0 {
        s
    } else if pat.len() <= s.len() && s.subrange(0, pat.len() as int) == pat {
        rep + replace_all(s.subrange(pat.len() as int, s.len() as int), pat, rep)
    } else {
        seq![s[0]] + replace_all(s.subrange(1, s.len() as int), pat, rep)
    }
}

/// Placeholder text `@p<i>` of the `i`-th parameter, counted from 1.
pub open spec fn placeholder(i: nat) -> Seq<char> {
    seq!['@', 'p'] + digits_of(i)
}

/// `sql` with placeholders `@p<k>` down to `@p1` replaced by their literals, highest first.
pub open spec fn substitute_down(sql: Seq<char>, literals: Seq<Seq<char>>, k: nat) -> Seq<char>
    decreases k,
{
    if k == 0 {
        sql
    } else {
        substitute_down(
            replace_all(sql, placeholder(k), literals[k - 1]),
            literals,
            (k - 1) as nat,
        )
    }
}

/// Literal texts of the parameters, in order.
pub open spec fn literals_of(params: Seq<HostParam>) -> Seq<Seq<char>> {
    Seq::new(params.len(), |i: int| sql_literal(params[i]))
}

/// `t` begins with `p`.
pub open spec fn has_prefix(t: Seq<char>, p: Seq<char>) -> bool {
    p.len() <= t.len() && t.subrange(0, p.len() as int) == p
}

/// `t` begins with the word `w`: `w`, then white space or the end of the text.
pub open spec fn begins_with_word(t: Seq<char>, w: Seq<char>) -> bool {
    has_prefix(t, w) && (t.len() == w.len() || is_white_space(t[w.len() as int]))
}

/// Upper-cased statement text that begins with a data-changing keyword.
pub open spec fn is_dml_text(upper: Seq<char>) -> bool {
    begins_with_word(upper, "INSERT"@) || begins_with_word(upper, "UPDATE"@) || begins_with_word(
        upper,
        "DELETE"@,
    ) || begins_with_word(upper, "MERGE"@)
}

/// What `str::to_uppercase` returns for a text.
pub uninterp spec fn upper_of(s: Seq<char>) -> Seq<char>;

/// Relies on `str::to_uppercase`: the upper-case mapping of the text, which is
/// a function of the text alone.
#[verifier::external_body]
fn upper_text(s: &str) -> (r: String)
    ensures
        r@ == upper_of(s@),
{
    s.to_uppercase()
}

/// Whether `t` begins with `p`.
pub fn starts_with_text(t: &Vec<char>, p: &Vec<char>) -> (r: bool)
    ensures
        r == has_prefix(t@, p@),
{
    if p.len() > t.len() {
        return false;
    }
    for i in 0..p.len()
        invariant
            p@.len() <= t@.len(),
            t@.subrange(0, i as int) == p@.subrange(0, i as int),
    {
        if t[i] != p[i] {
            assert(t@.subrange(0, p@.len() as int)[i as int] != p@[i as int]);
            return false;
        }
        assert(t@.subrange(0, i + 1) =~= p@.subrange(0, i + 1)) by {
            assert(t@.subrange(0, i as int) =~= p@.subrange(0, i as int));
        }
    }
    assert(p@.subrange(0, p@.len() as int) =~= p@);
    true
}

/// Whether `t` begins with the word `w`.
pub fn starts_with_word(t: &Vec<char>, w: &str) -> (r: bool)
    ensures
        r == begins_with_word(t@, w@),
{
    let wv = chars_of(w);
    if !starts_with_text(t, &wv) {
        return false;
    }
    let n = wv.len();
    n == t.len() || white_space_char(t[n])
}

/// Whether upper-cased statement text begins with the word `INSERT`, `UPDATE`,
/// `DELETE` or `MERGE`.
pub fn starts_with_dml(upper: &str) -> (r: bool)
    ensures
        r == is_dml_text(upper@),
{
    let t = chars_of(upper);
    starts_with_word(&t, "INSERT") || starts_with_word(&t, "UPDATE") || starts_with_word(
        &t,
        "DELETE",
    ) || starts_with_word(&t, "MERGE")
}

/// Whether a statement changes data, so that its affected-row count is echoed.
pub fn needs_rowcount(sql: &str) -> (r: bool)
    ensures
        r == is_dml_text(upper_of(trimmed_of(sql@))),
{
    let upper = upper_text(trim_text(sql));
    starts_with_dml(upper.as_str())
}

/// Appends every character of `v`, in order.
fn append_chars(out: &mut Vec<char>, v: &Vec<char>)
    ensures
        final(out)@ == old(out)@ + v@,
{
    let ghost start = out@;
    for j in 0..v.len()
        invariant
            out@ == start + v@.subrange(0, j as int),
    {
        out.push(v[j]);
        proof {
            assert(out@ =~= start + v@.subrange(0, j + 1));
        }
    }
    proof {
        assert(v@.subrange(0, v@.len() as int) =~= v@);
    }
}

/// Whether `pat` occurs in `s` at index `i`.
fn matches_at(s: &Vec<char>, i: usize, pat: &Vec<char>) -> (r: bool)
    requires
        i <= s@.len(),
    ensures
        r == (i + pat@.len() <= s@.len() && s@.subrange(i as int, i + pat@.len()) == pat@),
{
    let n = s.len();
    if pat.len() > n - i {
        return false;
    }
    for j in 0..pat.len()
        invariant
            n == s@.len(),
            i + pat@.len() <= s@.len(),
            s@.subrange(i as int, i + j) == pat@.subrange(0, j as int),
    {
        if s[i + j] != pat[j] {
            assert(s@.subrange(i as int, i + pat@.len())[j as int] != pat@[j as int]);
            return false;
        }
        assert(s@.subrange(i as int, i + j + 1) =~= pat@.subrange(0, j + 1)) by {
            assert(s@.subrange(i as int, i + j) =~= pat@.subrange(0, j as int));
        }
    }
    assert(pat@.subrange(0, pat@.len() as int) =~= pat@);
    true
}

/// `s` with every occurrence of `pat` replaced by `rep`, left to right.
pub fn replace_chars(s: &Vec<char>, pat: &Vec<char>, rep: &Vec<char>) -> (r: Vec<char>)
    requires
        pat@.len() > 0,
    ensures
        r@ == replace_all(s@, pat@, rep@),
{
    let mut out: Vec<char> = Vec::new();
    let mut i: usize = 0;
    let ghost whole = replace_all(s@, pat@, rep@);
    proof {
        assert(s@.subrange(0, s@.len() as int) =~= s@);
    }
    while i < s.len()
        invariant
            i <= s@.len(),
            pat@.len() > 0,
            whole == replace_all(s@, pat@, rep@),
            out@ + replace_all(s@.subrange(i as int, s@.len() as int), pat@, rep@) == whole,
        decreases s@.len() - i,
    {
        let ghost t = s@.subrange(i as int, s@.len() as int);
        let ghost before = out@;
        if matches_at(s, i, pat) {
            proof {
                assert(t.subrange(0, pat@.len() as int) =~= s@.subrange(i as int, i + pat@.len()));
                assert(t.subrange(pat@.len() as int, t.len() as int) =~= s@.subrange(
                    i + pat@.len(),
                    s@.len() as int,
                ));
            }
            append_chars(&mut out, rep);
            i = i + pat.len();
            proof {
                assert(out@ + replace_all(s@.subrange(i as int, s@.len() as int), pat@, rep@)
                    =~= before + replace_all(t, pat@, rep@));
            }
        } else {
            proof {
                if pat@.len() <= t.len() {
                    assert(t.subrange(0, pat@.len() as int) =~= s@.subrange(
                        i as int,
                        i + pat@.len(),
                    ));
                }
                assert(t.subrange(1, t.len() as int) =~= s@.subrange(i + 1, s@.len() as int));
            }
            out.push(s[i]);
            i = i + 1;
            proof {
                assert(out@ + replace_all(s@.subrange(i as int, s@.len() as int), pat@, rep@)
                    =~= before + replace_all(t, pat@, rep@));
            }
        }
    }
    proof {
        assert(s@.subrange(i as int, s@.len() as int) =~= Seq::<char>::empty());
        assert(out@ =~= whole);
    }
    out
}

/// Placeholder text `@p<i>`.
fn placeholder_chars(i: usize) -> (r: Vec<char>)
    ensures
        r@ == placeholder(i as nat),
{
    let mut v: Vec<char> = Vec::new();
    v.push('@');
    v.push('p');
    let d = crate::text::digit_chars(i as u128);
    append_chars(&mut v, &d);
    proof {
        assert(v@ =~= placeholder(i as nat));
    }
    v
}

/// Replaces each placeholder `@p1`, `@p2`, ... by the literal text of its
/// parameter, from the highest index down to the lowest, so that `@p1` is
/// never matched inside `@p10`.
pub fn substitute_params(sql: &str, params: &Vec<HostParam>) -> (r: String)
    ensures
        r@ == substitute_down(sql@, literals_of(params@), params@.len()),
{
    let ghost lits = literals_of(params@);
    let mut cur = chars_of(sql);
    let mut k: usize = params.len();
    while k > 0
        invariant
            k <= params@.len(),
            lits == literals_of(params@),
            substitute_down(cur@, lits, k as nat) == substitute_down(sql@, lits, params@.len()),
        decreases k,
    {
        let literal = py_to_sql_literal(&params[k - 1]);
        let lit = chars_of(literal.as_str());
        let ph = placeholder_chars(k);
        let next = replace_chars(&cur, &ph, &lit);
        proof {
            assert(lits[k - 1] == lit@);
        }
        cur = next;
        k = k - 1;
    }
    string_of(&cur)
}

/// The statement text for each parameter set of `execute_many`, in order, each
/// substituted on its own.
pub fn substitute_many(sql: &str, param_sets: &Vec<Vec<HostParam>>) -> (r: Vec<String>)
    ensures
        r@.len() == param_sets@.len(),
        forall|i: int|
            0 <= i < r@.len() ==> #[trigger] r@[i]@ == substitute_down(
                sql@,
                literals_of(param_sets@[i]@),
                param_sets@[i]@.len(),
            ),
{
    let mut out: Vec<String> = Vec::new();
    for k in 0..param_sets.len()
        invariant
            out@.len() == k,
            forall|i: int|
                0 <= i < k ==> #[trigger] out@[i]@ == substitute_down(
                    sql@,
                    literals_of(param_sets@[i]@),
                    param_sets@[i]@.len(),
                ),
    {
        out.push(substitute_params(sql, &param_sets[k]));
    }
    out
}

/// A statement followed by the one that echoes the affected-row counter.
pub fn rowcount_batch(sql: &str) -> (r: String)
    ensures
        r@ == sql@ + "\nSELECT @@ROWCOUNT AS "@ + ROWCOUNT_ALIAS@,
{
    let mut out = String::new();
    out.append(sql);
    out.append("\nSELECT @@ROWCOUNT AS ");
    out.append(ROWCOUNT_ALIAS);
    out
}

/// The batch text that `execute` sends, and whether it echoes the affected-row counter.
pub fn execute_batch_text(sql: &str) -> (r: (bool, String))
    ensures
        r.0 == is_dml_text(upper_of(trimmed_of(sql@))),
        r.0 ==> r.1@ == sql@ + "\nSELECT @@ROWCOUNT AS "@ + ROWCOUNT_ALIAS@,
        !r.0 ==> r.1@ == sql@,
{
    let dml = needs_rowcount(sql);
    if dml {
        (true, rowcount_batch(sql))
    } else {
        (false, String::from_str(sql))
    }
}

/// A result set that is the echo of the affected-row counter: one column under
/// the alias, one row.
pub open spec fn is_rowcount_echo(t: (Vec<ColumnInfo>, PyRowWriter)) -> bool {
    t.0@.len() == 1 && t.0@[0].name@ == ROWCOUNT_ALIAS@ && t.1.spec_row_count() == 1
}

/// The echoed counter: the integer cell of the last echo table, else 0.
pub open spec fn echoed_rowcount(sets: Seq<(Vec<ColumnInfo>, PyRowWriter)>) -> i64
    decreases sets.len(),
{
    if sets.len() == 0 {
        0
    } else {
        let t = sets.last();
        if is_rowcount_echo(t) && t.1.values@[0] is I64 {
            t.1.values@[0]->I64_0
        } else {
            echoed_rowcount(sets.drop_last())
        }
    }
}

/// An echo table whose first cell is an integer.
pub open spec fn holds_echo(t: (Vec<ColumnInfo>, PyRowWriter)) -> bool {
    is_rowcount_echo(t) && t.1.values@[0] is I64
}

/// The echoed counter is the integer of the last echo table that holds one.
pub proof fn lemma_echoed_rowcount_is_last(
    sets: Seq<(Vec<ColumnInfo>, PyRowWriter)>,
    i: int,
    n: i64,
)
    requires
        0 <= i < sets.len(),
        is_rowcount_echo(sets[i]),
        sets[i].1.values@[0] == CompactValue::I64(n),
        forall|j: int| i < j < sets.len() ==> !holds_echo(#[trigger] sets[j]),
    ensures
        echoed_rowcount(sets) == n,
    decreases sets.len(),
{
    if i < sets.len() - 1 {
        let rest = sets.drop_last();
        assert forall|j: int| i < j < rest.len() implies !holds_echo(#[trigger] rest[j]) by {
            assert(rest[j] == sets[j]);
        }
        assert(!holds_echo(sets[sets.len() - 1]));
        lemma_echoed_rowcount_is_last(rest, i, n);
    }
}

/// Without an echo table holding an integer, the echoed counter is 0.
pub proof fn lemma_echoed_rowcount_absent(sets: Seq<(Vec<ColumnInfo>, PyRowWriter)>)
    requires
        forall|j: int| 0 <= j < sets.len() ==> !holds_echo(#[trigger] sets[j]),
    ensures
        echoed_rowcount(sets) == 0,
    decreases sets.len(),
{
    if sets.len() > 0 {
        let rest = sets.drop_last();
        assert forall|j: int| 0 <= j < rest.len() implies !holds_echo(#[trigger] rest[j]) by {
            assert(rest[j] == sets[j]);
        }
        assert(!holds_echo(sets[sets.len() - 1]));
        lemma_echoed_rowcount_absent(rest);
    }
}

/// A data-changing statement reports `"<n> row(s) affected"`, where `n` is the
/// integer of the last echo table of its batch.
pub proof fn lemma_dml_reports_echoed_count(
    sets: Seq<(Vec<ColumnInfo>, PyRowWriter)>,
    i: int,
    n: i64,
)
    requires
        0 <= i < sets.len(),
        is_rowcount_echo(sets[i]),
        sets[i].1.values@[0] == CompactValue::I64(n),
        forall|j: int| i < j < sets.len() ==> !holds_echo(#[trigger] sets[j]),
    ensures
        execute_message_text(true, echoed_rowcount(sets)) == signed_digits(n as int)
            + " row(s) affected"@,
{
    lemma_echoed_rowcount_is_last(sets, i, n);
}

/// A data-changing statement whose batch holds no echo table with an integer
/// reports `"0 row(s) affected"`.
pub proof fn lemma_dml_reports_zero_without_echo(sets: Seq<(Vec<ColumnInfo>, PyRowWriter)>)
    requires
        forall|j: int| 0 <= j < sets.len() ==> !holds_echo(#[trigger] sets[j]),
    ensures
        execute_message_text(true, echoed_rowcount(sets)) == signed_digits(0) + " row(s) affected"@,
{
    lemma_echoed_rowcount_absent(sets);
}

/// Finds the echoed affected-row counter among the result sets of a batch.
pub fn extract_rowcount(sets: &Vec<(Vec<ColumnInfo>, PyRowWriter)>) -> (r: i64)
    ensures
        r == echoed_rowcount(sets@),
{
    let alias = String::from_str(ROWCOUNT_ALIAS);
    let mut rowcount: i64 = 0;
    for i in 0..sets.len()
        invariant
            alias@ == ROWCOUNT_ALIAS@,
            rowcount == echoed_rowcount(sets@.subrange(0, i as int)),
    {
        let ghost prefix = sets@.subrange(0, i + 1);
        proof {
            assert(prefix.drop_last() =~= sets@.subrange(0, i as int));
        }
        let cols = &sets[i].0;
        let w = &sets[i].1;
        if cols.len() == 1 && cols[0].name == alias && w.row_count() == 1 {
            proof {
                crate::row_writer::lemma_first_cell(w.values@.len() as int, w.col_count as int);
            }
            match &w.values[0] {
                CompactValue::I64(v) => {
                    rowcount = *v;
                },
                _ => {},
            }
        }
    }
    proof {
        assert(sets@.subrange(0, sets@.len() as int) =~= sets@);
    }
    rowcount
}

/// Caller-facing message of `execute`.
pub open spec fn execute_message_text(dml: bool, rowcount: i64) -> Seq<char> {
    if dml {
        signed_digits(rowcount as int) + " row(s) affected"@
    } else {
        "OK"@
    }
}

/// `"<n> row(s) affected"` for a data-changing statement, `"OK"` otherwise.
pub fn execute_message(dml: bool, rowcount: i64) -> (r: String)
    ensures
        r@ == execute_message_text(dml, rowcount),
{
    let mut out = String::new();
    if dml {
        push_signed(&mut out, rowcount as i128);
        out.append(" row(s) affected");
    } else {
        out.append("OK");
    }
    out
}

/// Message of `execute` from the result sets of its batch.
pub fn execute_outcome(dml: bool, sets: &Vec<(Vec<ColumnInfo>, PyRowWriter)>) -> (r: String)
    ensures
        r@ == execute_message_text(dml, echoed_rowcount(sets@)),
{
    let rowcount = extract_rowcount(sets);
    execute_message(dml, rowcount)
}

/// `q` is the caller-facing shape of table `t`: its column names, its whole rows'
/// cells in row-major order, its row count and its column count.
pub open spec fn shaped_as(t: (Vec<ColumnInfo>, PyRowWriter), q: (Vec<String>, Vec<CompactValue>, usize, usize)) -> bool {
    let rows = t.1.spec_row_count();
    &&& q.0@.len() == t.0@.len()
    &&& forall|k: int| 0 <= k < q.0@.len() ==> #[trigger] q.0@[k] == t.0@[k].name
    &&& q.1@ == t.1.values@.subrange(0, rows * t.1.col_count)
    &&& q.2 == rows
    &&& q.3 == t.1.col_count
}

/// The result set that `query` returns: the first one with at least one column.
pub open spec fn first_with_columns(sets: Seq<(Vec<ColumnInfo>, PyRowWriter)>, i: int) -> bool {
    &&& 0 <= i < sets.len()
    &&& sets[i].0@.len() > 0
    &&& forall|j: int| 0 <= j < i ==> #[trigger] sets[j].0@.len() == 0
}

proof fn lemma_whole_rows_fit(len: int, col_count: int)
    requires
        len >= 0,
        col_count >= 0,
    ensures
        rows_in(len as nat, col_count as nat) * col_count <= len,
{
    if col_count > 0 {
        vstd::arithmetic::div_mod::lemma_fundamental_div_mod(len, col_count);
        vstd::arithmetic::mul::lemma_mul_is_commutative(len / col_count, col_count);
    }
}

/// Shapes the result sets of a batch for `query`: the first one with at least
/// one column, or `None` when every one has none (a bare counter echo has none).
pub fn query_result(sets: Vec<(Vec<ColumnInfo>, PyRowWriter)>) -> (r: QueryResult)
    ensures
        r is None <==> forall|j: int| 0 <= j < sets@.len() ==> #[trigger] sets@[j].0@.len() == 0,
        r matches Some(q) ==> exists|i: int| first_with_columns(sets@, i) && shaped_as(sets@[i], q),
{
    let mut sets = sets;
    let ghost all = sets@;
    let mut i: usize = 0;
    while i < sets.len()
        invariant
            sets@ == all,
            i <= sets@.len(),
            forall|j: int| 0 <= j < i ==> #[trigger] all[j].0@.len() == 0,
        ensures
            i <= sets@.len(),
            i < sets@.len() ==> all[i as int].0@.len() > 0,
            forall|j: int| 0 <= j < i ==> #[trigger] all[j].0@.len() == 0,
        decreases sets@.len() - i,
    {
        if sets[i].0.len() > 0 {
            break;
        }
        i = i + 1;
    }
    if i == sets.len() {
        return None;
    }
    let (cols, w) = sets.swap_remove(i);
    assert(first_with_columns(all, i as int));
    let rows = w.row_count();
    let col_count = w.col_count;
    let mut names: Vec<String> = Vec::new();
    for k in 0..cols.len()
        invariant
            names@.len() == k,
            forall|m: int| 0 <= m < k ==> #[trigger] names@[m] == cols@[m].name,
    {
        names.push(cols[k].name.clone());
    }
    let n = w.values.len();
    proof {
        lemma_whole_rows_fit(n as int, col_count as int);
    }
    let mut values = w.values;
    values.truncate(rows * col_count);
    Some((names, values, rows, col_count))
}

} // verus!
