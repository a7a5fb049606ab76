//! Column alignment: the named modes, custom per-column mark sequences, and
//! their expansion into the `tabular` alignment string.

use vstd::prelude::*;

use crate::text::str_eq;

verus! {

/// How the columns of the table are aligned.
pub enum ColumnDef {
    /// Centered columns.
    Centered,
    /// Left-aligned columns.
    Left,
    /// Right-aligned columns.
    Right,
    /// One alignment mark per column: 'l', 'c' or 'r'.
    Custom(String),
}

impl Clone for ColumnDef {
    fn clone(&self) -> (r: Self)
        ensures
            r == self,
    {
        match self {
            ColumnDef::Centered => ColumnDef::Centered,
            ColumnDef::Left => ColumnDef::Left,
            ColumnDef::Right => ColumnDef::Right,
            ColumnDef::Custom(s) => ColumnDef::Custom(s.clone()),
        }
    }
}

/// Whether every character of `s` is an alignment mark.
pub open spec fn valid_marks(s: Seq<char>) -> bool {
    forall|i: int| 0 <= i < s.len() ==> (s[i] == 'l' || s[i] == 'c' || s[i] == 'r')
}

/// The alignment string that `def` stands for, over `columns` columns: a named
/// mode repeats its mark once per column, a custom sequence is kept verbatim.
pub open spec fn expand_spec(def: ColumnDef, columns: int) -> Seq<char> {
    match def {
        ColumnDef::Centered => Seq::new(columns as nat, |i: int| 'c'),
        ColumnDef::Left => Seq::new(columns as nat, |i: int| 'l'),
        ColumnDef::Right => Seq::new(columns as nat, |i: int| 'r'),
        ColumnDef::Custom(s) => s@,
    }
}

fn repeat_mark(mark: &str, columns: usize) -> (r: String)
    requires
        mark@.len() == 1,
    ensures
        r@ == Seq::new(columns as nat, |i: int| mark@[0]),
{
    let mut r = String::new();
    let mut i: usize = 0;
    while i < columns
        invariant
            0 <= i <= columns,
            mark@.len() == 1,
            r@.len() == i,
            forall|j: int| 0 <= j < i ==> r@[j] == mark@[0],
        decreases columns - i,
    {
        r.append(mark);
        i = i + 1;
    }
    proof {
        assert(r@ =~= Seq::new(columns as nat, |i: int| mark@[0]));
    }
    r
}

impl ColumnDef {
    /// Expands this alignment into the concrete per-column alignment string.
    pub fn expand(&self, columns: usize) -> (r: String)
        ensures
            r@ == expand_spec(*self, columns as int),
    {
        match self {
            ColumnDef::Centered => {
                proof {
                    reveal_strlit("c");
                }
                repeat_mark("c", columns)
            },
            ColumnDef::Left => {
                proof {
                    reveal_strlit("l");
                }
                repeat_mark("l", columns)
            },
            ColumnDef::Right => {
                proof {
                    reveal_strlit("r");
                }
                repeat_mark("r", columns)
            },
            ColumnDef::Custom(s) => s.clone(),
        }
    }
}

/// The message given for an alignment request that fits no mode.
pub open spec fn column_def_err_msg() -> Seq<char> {
    "possible values: centered, left, right, <sequence of 'l', 'c' and 'r'>"@
}

/// Reads an alignment request: one of the named modes, or a sequence of
/// alignment marks, kept as a custom alignment. Anything else is refused.
pub fn column_def_check(s: &str) -> (r: Result<ColumnDef, String>)
    ensures
        s@ == "centered"@ ==> (r matches Ok(d) && d == ColumnDef::Centered),
        s@ == "left"@ ==> (r matches Ok(d) && d == ColumnDef::Left),
        s@ == "right"@ ==> (r matches Ok(d) && d == ColumnDef::Right),
        s@ != "centered"@ && s@ != "left"@ && s@ != "right"@ && valid_marks(s@) ==> (r matches Ok(d)
            && d matches ColumnDef::Custom(t) && t@ == s@),
        !valid_marks(s@) && s@ != "centered"@ && s@ != "left"@ && s@ != "right"@ ==> (r matches Err(
            m,
        ) && m@ == column_def_err_msg()),
{
    proof {
        reveal_strlit("centered");
        reveal_strlit("left");
        reveal_strlit("right");
        assert("centered"@.len() == 8);
        assert("left"@.len() == 4);
        assert("right"@.len() == 5);
    }
    if str_eq(s, "centered") {
        Ok(ColumnDef::Centered)
    } else if str_eq(s, "left") {
        Ok(ColumnDef::Left)
    } else if str_eq(s, "right") {
        Ok(ColumnDef::Right)
    } else {
        let n = s.unicode_len();
        let mut i: usize = 0;
        let mut ok = true;
        while i < n
            invariant
                n == s@.len(),
                0 <= i <= n,
                ok == (forall|j: int| 0 <= j < i ==> (s@[j] == 'l' || s@[j] == 'c' || s@[j] == 'r')),
            decreases n - i,
        {
            let c = s.get_char(i);
            if !(c == 'l' || c == 'c' || c == 'r') {
                ok = false;
            }
            i = i + 1;
        }
        if ok {
            Ok(ColumnDef::Custom(s.to_owned()))
        } else {
            Err(String::from_str("possible values: centered, left, right, <sequence of 'l', 'c' and 'r'>"))
        }
    }
}

} // verus!
