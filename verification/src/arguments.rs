//! The resolved configuration: target rows and columns, the alignment
//! request, and the optional source path, with the validations that guard
//! them.

use vstd::prelude::*;

use crate::column_def::ColumnDef;
use crate::text::{dec_str, fields_spec, lines_spec, records_spec, split_fields, split_lines,
    usize_to_string};

verus! {

/// A decimal digit.
pub open spec fn is_digit(c: char) -> bool {
    '0' <= c && c <= '9'
}

/// The value of one digit.
pub open spec fn digit_val(c: char) -> int {
    c as int - '0' as int
}

/// The digit part of a dimension argument: one leading plus sign is allowed.
pub open spec fn numeral_digits(s: Seq<char>) -> Seq<char> {
    if s.len() > 0 && s[0] == '+' {
        s.drop_first()
    } else {
        s
    }
}

/// Whether `s` is a well-formed dimension argument: at least one digit, and
/// nothing but digits after the optional sign.
pub open spec fn is_numeral(s: Seq<char>) -> bool {
    let d = numeral_digits(s);
    d.len() > 0 && (forall|i: int| 0 <= i < d.len() ==> is_digit(d[i]))
}

/// The value of a digit sequence read in base ten.
pub open spec fn numeral_val(d: Seq<char>) -> int
    decreases d.len(),
{
    if d.len() == 0 {
        0
    } else {
        numeral_val(d.drop_last()) * 10 + digit_val(d.last())
    }
}

proof fn lemma_numeral_nonneg(d: Seq<char>)
    requires
        forall|i: int| 0 <= i < d.len() ==> is_digit(d[i]),
    ensures
        numeral_val(d) >= 0,
    decreases d.len(),
{
    if d.len() > 0 {
        lemma_numeral_nonneg(d.drop_last());
    }
}

proof fn lemma_numeral_mono(d: Seq<char>, k: int)
    requires
        forall|i: int| 0 <= i < d.len() ==> is_digit(d[i]),
        0 <= k <= d.len(),
    ensures
        numeral_val(d.take(k)) <= numeral_val(d),
    decreases d.len() - k,
{
    if k == d.len() {
        assert(d.take(k) =~= d);
    } else {
        lemma_numeral_mono(d, k + 1);
        assert(d.take(k + 1).drop_last() =~= d.take(k));
        assert(d.take(k + 1).last() == d[k]);
        assert(forall|i: int| 0 <= i < d.take(k).len() ==> is_digit(d.take(k)[i]));
        lemma_numeral_nonneg(d.take(k));
    }
}

/// The message for a dimension that cannot be read as a positive number.
pub open spec fn invalid_dimension_msg(s: Seq<char>) -> Seq<char> {
    "'"@ + s + "' isn't a valid dimension"@
}

/// The message for a dimension of zero.
pub open spec fn zero_dimension_msg() -> Seq<char> {
    "Should have at least 1 cell"@
}

/// Reads a dimension argument: a decimal number of at least 1. Anything that
/// is not a number, or does not fit the machine, is refused as invalid; zero
/// is refused as too small.
pub fn dimension_check(s: &str) -> (r: Result<usize, String>)
    ensures
        r is Ok <==> is_numeral(s@) && 0 < numeral_val(numeral_digits(s@)) <= usize::MAX as int,
        r matches Ok(v) ==> v as int == numeral_val(numeral_digits(s@)),
        !(is_numeral(s@) && numeral_val(numeral_digits(s@)) <= usize::MAX as int) ==> (r matches
            Err(m) && m@ == invalid_dimension_msg(s@)),
        is_numeral(s@) && numeral_val(numeral_digits(s@)) == 0 ==> (r matches Err(m) && m@
            == zero_dimension_msg()),
{
    let n = s.unicode_len();
    let start: usize = if n > 0 && s.get_char(0) == '+' {
        1
    } else {
        0
    };
    let ghost d = numeral_digits(s@);
    proof {
        assert(d =~= s@.skip(start as int));
    }
    if start == n {
        return Err(invalid_dimension_exec(s));
    }
    let mut acc: usize = 0;
    let mut i: usize = start;
    proof {
        assert(d.take(0) =~= Seq::<char>::empty());
    }
    while i < n
        invariant
            n == s@.len(),
            start <= i <= n,
            start < n,
            d == numeral_digits(s@),
            d =~= s@.skip(start as int),
            forall|j: int| 0 <= j < i - start ==> is_digit(d[j]),
            acc as int == numeral_val(d.take(i - start)),
        decreases n - i,
    {
        let c = s.get_char(i);
        if !('0' <= c && c <= '9') {
            assert(!is_digit(d[i - start]));
            return Err(invalid_dimension_exec(s));
        }
        let dv = ((c as u32) - ('0' as u32)) as usize;
        proof {
            assert(dv as int == digit_val(d[i - start]));
            assert(d.take(i - start + 1).drop_last() =~= d.take(i - start));
            assert(d.take(i - start + 1).last() == d[i - start]);
        }
        let next = match acc.checked_mul(10) {
            Some(t) => t.checked_add(dv),
            None => None,
        };
        match next {
            Some(v) => {
                acc = v;
            },
            None => {
                proof {
                    if is_numeral(s@) {
                        lemma_numeral_mono(d, i - start + 1);
                    }
                }
                return Err(invalid_dimension_exec(s));
            },
        }
        i = i + 1;
    }
    proof {
        assert(d.take(n - start) =~= d);
    }
    if acc == 0 {
        Err(String::from_str("Should have at least 1 cell"))
    } else {
        Ok(acc)
    }
}

fn invalid_dimension_exec(s: &str) -> (r: String)
    ensures
        r@ == invalid_dimension_msg(s@),
{
    let mut r = String::from_str("'");
    r.append(s);
    r.append("' isn't a valid dimension");
    proof {
        assert(r@ =~= invalid_dimension_msg(s@));
    }
    r
}

/// The message for a custom alignment whose length is not the column count.
pub open spec fn size_mismatch_msg(expected: int, found: int) -> Seq<char> {
    "The column definition should contain the same number of columns. Expected: "@ + dec_str(
        expected as nat,
    ) + " found: "@ + dec_str(found as nat)
}

/// The message for a source that offers no first record to infer sizes from.
pub open spec fn unreadable_source_msg() -> Seq<char> {
    "The csv source is empty or starts with an empty line"@
}

/// The resolved run configuration.
pub struct LatableArgs {
    /// Target row count, if given.
    pub rows: Option<usize>,
    /// Target column count, if given.
    pub columns: Option<usize>,
    /// The alignment request.
    pub column_def: ColumnDef,
    /// The source path, if a source is to be read.
    pub csv_path: Option<String>,
}

impl LatableArgs {
    /// Bundles a configuration.
    pub fn new(
        rows: Option<usize>,
        columns: Option<usize>,
        column_def: ColumnDef,
        csv_path: Option<String>,
    ) -> (r: LatableArgs)
        ensures
            r.rows == rows,
            r.columns == columns,
            r.column_def == column_def,
            r.csv_path == csv_path,
    {
        LatableArgs { rows, columns, column_def, csv_path }
    }

    /// The alignment request.
    pub fn get_column_def(&self) -> (r: ColumnDef)
        ensures
            r == self.column_def,
    {
        self.column_def.clone()
    }

    /// The resolved column count.
    pub fn get_columns(&self) -> (r: usize)
        requires
            self.columns is Some,
        ensures
            r == self.columns.unwrap(),
    {
        self.columns.unwrap()
    }

    /// The resolved row count.
    pub fn get_rows(&self) -> (r: usize)
        requires
            self.rows is Some,
        ensures
            r == self.rows.unwrap(),
    {
        self.rows.unwrap()
    }

    /// The source path, if any.
    pub fn get_csv_path(&self) -> (r: &Option<String>)
        ensures
            r == &self.csv_path,
    {
        &self.csv_path
    }

    /// Whether the alignment is a custom per-column sequence.
    pub fn is_user_defined(&self) -> (r: bool)
        ensures
            r == (self.column_def is Custom),
    {
        match self.column_def {
            ColumnDef::Custom(_) => true,
            _ => false,
        }
    }

    /// Whether a source is to be read.
    pub fn has_csv(&self) -> (r: bool)
        ensures
            r == (self.csv_path is Some),
    {
        match self.csv_path {
            Some(_) => true,
            None => false,
        }
    }

    /// A custom alignment must carry exactly one mark per column; the named
    /// modes always fit. This check is fatal, unlike the reconciliation
    /// warnings.
    pub fn col_def_size_validation(&self) -> (r: Result<(), String>)
        requires
            self.column_def is Custom ==> self.columns is Some,
        ensures
            match self.column_def {
                ColumnDef::Custom(cd) => (r is Ok <==> cd@.len() == self.columns.unwrap()) && (cd@.len()
                    != self.columns.unwrap() ==> (r matches Err(m) && m@ == size_mismatch_msg(
                    self.columns.unwrap() as int,
                    cd@.len() as int,
                ))),
                _ => r is Ok,
            },
    {
        match &self.column_def {
            ColumnDef::Custom(cd) => {
                let found = cd.as_str().unicode_len();
                let expected = self.get_columns();
                if found == expected {
                    Ok(())
                } else {
                    let mut m = String::from_str(
                        "The column definition should contain the same number of columns. Expected: ",
                    );
                    let e = usize_to_string(expected);
                    m.append(e.as_str());
                    m.append(" found: ");
                    let f = usize_to_string(found);
                    m.append(f.as_str());
                    proof {
                        assert(m@ =~= size_mismatch_msg(expected as int, found as int));
                    }
                    Err(m)
                }
            },
            _ => Ok(()),
        }
    }

    /// Fills an omitted dimension from the source: the row count is its number
    /// of lines, the column count the number of fields of the first record
    /// only. A source without a non-empty first line cannot be used.
    pub fn parse_sizes(&mut self, csv: &str) -> (r: Result<(), String>)
        ensures
            r is Ok <==> (lines_spec(csv@).len() > 0 && lines_spec(csv@)[0].len() > 0),
            r matches Err(m) ==> *final(self) == *old(self) && m@ == unreadable_source_msg(),
            r is Ok ==> final(self).column_def == old(self).column_def && final(self).csv_path
                == old(self).csv_path,
            r is Ok && old(self).rows is Some ==> final(self).rows == old(self).rows,
            r is Ok && old(self).rows is None ==> (final(self).rows matches Some(k) && k as int
                == lines_spec(csv@).len()),
            r is Ok && old(self).columns is Some ==> final(self).columns == old(self).columns,
            r is Ok && old(self).columns is None ==> (final(self).columns matches Some(k) && k as int
                == records_spec(csv@)[0].len()),
    {
        let ls = split_lines(csv);
        if ls.len() == 0 {
            return Err(String::from_str("The csv source is empty or starts with an empty line"));
        }
        let first = &ls[0];
        proof {
            assert(lines_spec(csv@)[0] == first@);
        }
        if first.as_str().is_empty() {
            return Err(String::from_str("The csv source is empty or starts with an empty line"));
        }
        if self.rows.is_none() {
            self.rows = Some(ls.len());
        }
        if self.columns.is_none() {
            let fs = split_fields(first.as_str());
            proof {
                assert(records_spec(csv@)[0] == fields_spec(first@));
            }
            self.columns = Some(fs.len());
        }
        Ok(())
    }
}

} // verus!
