//! Text primitives shared by the whole crate: whitespace trimming, splitting
//! on a separator character, and decimal numerals.

use vstd::prelude::*;

verus! {

/// The characters stripped from both ends of a field: ASCII whitespace.
pub open spec fn is_space_char(c: char) -> bool {
    c == ' ' || c == '\t' || c == '\n' || c == '\r' || c == '\u{c}'
}

fn is_space(c: char) -> (r: bool)
    ensures
        r == is_space_char(c),
{
    c == ' ' || c == '\t' || c == '\n' || c == '\r' || c == '\u{c}'
}

/// `s` without its leading whitespace.
pub open spec fn trim_front(s: Seq<char>) -> Seq<char>
    decreases s.len(),
{
    if s.len() > 0 && is_space_char(s[0]) {
        trim_front(s.drop_first())
    } else {
        s
    }
}

/// `s` without its trailing whitespace.
pub open spec fn trim_back(s: Seq<char>) -> Seq<char>
    decreases s.len(),
{
    if s.len() > 0 && is_space_char(s.last()) {
        trim_back(s.drop_last())
    } else {
        s
    }
}

/// `s` without surrounding whitespace.
pub open spec fn trim_spec(s: Seq<char>) -> Seq<char> {
    trim_back(trim_front(s))
}

proof fn lemma_trim_front_is_skip(s: Seq<char>, a: int)
    requires
        0 <= a <= s.len(),
        forall|j: int| 0 <= j < a ==> is_space_char(s[j]),
        a < s.len() ==> !is_space_char(s[a]),
    ensures
        trim_front(s) == s.skip(a),
    decreases a,
{
    if a == 0 {
        assert(s.skip(0) =~= s);
    } else {
        assert(is_space_char(s[0]));
        lemma_trim_front_is_skip(s.drop_first(), a - 1);
        assert(s.drop_first().skip(a - 1) =~= s.skip(a));
    }
}

proof fn lemma_trim_back_is_take(s: Seq<char>, b: int)
    requires
        0 <= b <= s.len(),
        forall|j: int| b <= j < s.len() ==> is_space_char(s[j]),
        b > 0 ==> !is_space_char(s[b - 1]),
    ensures
        trim_back(s) == s.take(b),
    decreases s.len() - b,
{
    if b == s.len() {
        assert(s.take(b) =~= s);
        if s.len() > 0 {
            assert(!is_space_char(s.last()));
        }
    } else {
        assert(is_space_char(s.last()));
        lemma_trim_back_is_take(s.drop_last(), b);
        assert(s.drop_last().take(b) =~= s.take(b));
    }
}

/// Removes the surrounding whitespace of `s`.
pub fn trim_str(s: &str) -> (r: String)
    ensures
        r@ == trim_spec(s@),
{
    let n = s.unicode_len();
    let mut a: usize = 0;
    while a < n && is_space(s.get_char(a))
        invariant
            n == s@.len(),
            0 <= a <= n,
            forall|j: int| 0 <= j < a ==> is_space_char(s@[j]),
        decreases n - a,
    {
        a = a + 1;
    }
    let mut b: usize = n;
    while b > a && is_space(s.get_char(b - 1))
        invariant
            n == s@.len(),
            a <= b <= n,
            forall|j: int| b <= j < n ==> is_space_char(s@[j]),
            a < n ==> !is_space_char(s@[a as int]),
        decreases b,
    {
        b = b - 1;
    }
    proof {
        lemma_trim_front_is_skip(s@, a as int);
        let t = s@.skip(a as int);
        if b > a {
            lemma_trim_back_is_take(t, b - a);
        } else {
            lemma_trim_back_is_take(t, 0);
        }
        assert(t.take(b - a) =~= s@.subrange(a as int, b as int));
    }
    let piece = s.substring_char(a, b);
    piece.to_owned()
}

/// The index of the first `sep` in `s`, or `s.len()` if there is none.
pub open spec fn find_char(s: Seq<char>, sep: char) -> nat
    decreases s.len(),
{
    if s.len() == 0 {
        0
    } else if s[0] == sep {
        0
    } else {
        1 + find_char(s.drop_first(), sep)
    }
}

proof fn lemma_find_char(s: Seq<char>, sep: char, i: int)
    requires
        0 <= i <= s.len(),
        forall|j: int| 0 <= j < i ==> s[j] != sep,
        i < s.len() ==> s[i] == sep,
    ensures
        find_char(s, sep) == i,
    decreases i,
{
    if i == 0 {
    } else {
        lemma_find_char(s.drop_first(), sep, i - 1);
    }
}

/// The segments of `s` between occurrences of `sep`; always at least one
/// segment, and one more segment than separators.
pub open spec fn split_on(s: Seq<char>, sep: char) -> Seq<Seq<char>>
    decreases s.len(),
{
    let i = find_char(s, sep) as int;
    if i < s.len() {
        seq![s.take(i)] + split_on(s.skip(i + 1), sep)
    } else {
        seq![s]
    }
}

/// Splits `s` at each occurrence of `sep`.
pub fn split_str(s: &str, sep: char) -> (v: Vec<String>)
    ensures
        v.deep_view() == split_on(s@, sep),
        v.len() >= 1,
{
    let n = s.unicode_len();
    let mut v: Vec<String> = Vec::new();
    let mut start: usize = 0;
    let mut i: usize = 0;
    proof {
        assert(s@.skip(0) =~= s@);
        assert(v.deep_view() + split_on(s@, sep) =~= split_on(s@, sep));
    }
    while i < n
        invariant
            n == s@.len(),
            0 <= start <= i <= n,
            forall|j: int| start <= j < i ==> s@[j] != sep,
            split_on(s@, sep) == v.deep_view() + split_on(s@.skip(start as int), sep),
        decreases n - i,
    {
        if s.get_char(i) == sep {
            let piece = s.substring_char(start, i);
            proof {
                let t = s@.skip(start as int);
                lemma_find_char(t, sep, i - start);
                assert(t.take(i - start) =~= s@.subrange(start as int, i as int));
                assert(t.skip(i - start + 1) =~= s@.skip(i + 1));
                assert(v.deep_view().push(t.take(i - start)) =~= v.deep_view() + seq![
                    s@.subrange(start as int, i as int),
                ]);
            }
            let ghost old_v = v.deep_view();
            let ghost old_start = start as int;
            v.push(piece.to_owned());
            proof {
                let t = s@.skip(old_start);
                assert(v.deep_view() =~= old_v.push(s@.subrange(old_start, i as int)));
                assert(split_on(t, sep) == seq![s@.subrange(old_start, i as int)] + split_on(
                    s@.skip(i + 1),
                    sep,
                ));
                assert(old_v + split_on(t, sep) =~= v.deep_view() + split_on(s@.skip(i + 1), sep));
            }
            start = i + 1;
        }
        i = i + 1;
    }
    let piece = s.substring_char(start, n);
    proof {
        let t = s@.skip(start as int);
        lemma_find_char(t, sep, n - start);
        assert(t =~= s@.subrange(start as int, n as int));
    }
    let ghost old_v = v.deep_view();
    v.push(piece.to_owned());
    proof {
        assert(v.deep_view() =~= old_v.push(s@.subrange(start as int, n as int)));
        assert(v.deep_view() =~= old_v + seq![s@.subrange(start as int, n as int)]);
    }
    v
}

/// The lines of `s`: the segments between newlines, without a trailing empty
/// segment, so that a source ending in a newline has no extra empty line.
pub open spec fn lines_spec(s: Seq<char>) -> Seq<Seq<char>> {
    let segs = split_on(s, '\n');
    if segs.last().len() == 0 {
        segs.drop_last()
    } else {
        segs
    }
}

/// Splits `s` into its lines.
pub fn split_lines(s: &str) -> (v: Vec<String>)
    ensures
        v.deep_view() == lines_spec(s@),
{
    let mut v = split_str(s, '\n');
    let ghost segs = v.deep_view();
    let last_is_empty = v[v.len() - 1].as_str().is_empty();
    if last_is_empty {
        v.pop();
        proof {
            assert(v.deep_view() =~= segs.drop_last());
        }
    }
    v
}

/// The fields of one record: the segments between commas, each trimmed.
pub open spec fn fields_spec(line: Seq<char>) -> Seq<Seq<char>> {
    split_on(line, ',').map_values(|f: Seq<char>| trim_spec(f))
}

/// Splits one record into its trimmed fields.
pub fn split_fields(line: &str) -> (v: Vec<String>)
    ensures
        v.deep_view() == fields_spec(line@),
        v.len() >= 1,
{
    let raw = split_str(line, ',');
    let mut v: Vec<String> = Vec::new();
    let n = raw.len();
    let mut i: usize = 0;
    while i < n
        invariant
            n == raw.len(),
            0 <= i <= n,
            raw.deep_view() == split_on(line@, ','),
            v.deep_view() =~= raw.deep_view().map_values(|f: Seq<char>| trim_spec(f)).take(i as int),
        decreases n - i,
    {
        let ghost old_v = v.deep_view();
        let t = trim_str(raw[i].as_str());
        proof {
            assert(raw.deep_view()[i as int] == raw[i as int]@);
        }
        v.push(t);
        proof {
            assert(v.deep_view() =~= old_v.push(trim_spec(raw.deep_view()[i as int])));
            assert(v.deep_view() =~= raw.deep_view().map_values(
                |f: Seq<char>| trim_spec(f),
            ).take(i + 1));
        }
        i = i + 1;
    }
    proof {
        let m = raw.deep_view().map_values(|f: Seq<char>| trim_spec(f));
        assert(v.deep_view() =~= m);
    }
    v
}

/// Every record of the source: its lines, each split into trimmed fields.
pub open spec fn records_spec(csv: Seq<char>) -> Seq<Seq<Seq<char>>> {
    lines_spec(csv).map_values(|l: Seq<char>| fields_spec(l))
}

/// Reads the whole source into records of trimmed fields.
pub fn parse_records(csv: &str) -> (recs: Vec<Vec<String>>)
    ensures
        recs.deep_view() == records_spec(csv@),
{
    let ls = split_lines(csv);
    let mut recs: Vec<Vec<String>> = Vec::new();
    let n = ls.len();
    let mut i: usize = 0;
    while i < n
        invariant
            n == ls.len(),
            0 <= i <= n,
            ls.deep_view() == lines_spec(csv@),
            recs.deep_view() =~= lines_spec(csv@).map_values(|l: Seq<char>| fields_spec(l)).take(
                i as int,
            ),
        decreases n - i,
    {
        let ghost old_r = recs.deep_view();
        let fs = split_fields(ls[i].as_str());
        proof {
            assert(ls.deep_view()[i as int] == ls[i as int]@);
        }
        recs.push(fs);
        proof {
            assert(recs.deep_view() =~= old_r.push(fields_spec(ls.deep_view()[i as int])));
            assert(recs.deep_view() =~= lines_spec(csv@).map_values(
                |l: Seq<char>| fields_spec(l),
            ).take(i + 1));
        }
        i = i + 1;
    }
    proof {
        assert(recs.deep_view() =~= records_spec(csv@));
    }
    recs
}

/// The digit character for `d` between 0 and 9.
pub open spec fn digit_char(d: int) -> char {
    if d == 0 {
        '0'
    } else if d == 1 {
        '1'
    } else if d == 2 {
        '2'
    } else if d == 3 {
        '3'
    } else if d == 4 {
        '4'
    } else if d == 5 {
        '5'
    } else if d == 6 {
        '6'
    } else if d == 7 {
        '7'
    } else if d == 8 {
        '8'
    } else {
        '9'
    }
}

/// The decimal numeral of `n`, without leading zeros.
pub open spec fn dec_str(n: nat) -> Seq<char>
    decreases n,
{
    if n < 10 {
        seq![digit_char(n as int)]
    } else {
        dec_str(n / 10) + seq![digit_char((n % 10) as int)]
    }
}

fn digit_str(d: usize) -> (r: &'static str)
    requires
        d < 10,
    ensures
        r@ =~= seq![digit_char(d as int)],
{
    proof {
        reveal_strlit("0");
        reveal_strlit("1");
        reveal_strlit("2");
        reveal_strlit("3");
        reveal_strlit("4");
        reveal_strlit("5");
        reveal_strlit("6");
        reveal_strlit("7");
        reveal_strlit("8");
        reveal_strlit("9");
    }
    if d == 0 {
        "0"
    } else if d == 1 {
        "1"
    } else if d == 2 {
        "2"
    } else if d == 3 {
        "3"
    } else if d == 4 {
        "4"
    } else if d == 5 {
        "5"
    } else if d == 6 {
        "6"
    } else if d == 7 {
        "7"
    } else if d == 8 {
        "8"
    } else {
        "9"
    }
}

/// Writes `n` as a decimal numeral.
pub fn usize_to_string(n: usize) -> (r: String)
    ensures
        r@ == dec_str(n as nat),
    decreases n,
{
    if n < 10 {
        let r = String::from_str(digit_str(n));
        r
    } else {
        assert(n / 10 < n) by {
            assert(n >= 10);
        }
        let mut r = usize_to_string(n / 10);
        r.append(digit_str(n % 10));
        proof {
            assert(r@ =~= dec_str((n / 10) as nat) + seq![digit_char((n % 10) as int)]);
        }
        r
    }
}

/// Compares two string slices character by character.
pub fn str_eq(a: &str, b: &str) -> (r: bool)
    ensures
        r == (a@ == b@),
{
    let n = a.unicode_len();
    if n != b.unicode_len() {
        return false;
    }
    let mut i: usize = 0;
    while i < n
        invariant
            n == a@.len(),
            n == b@.len(),
            0 <= i <= n,
            forall|j: int| 0 <= j < i ==> a@[j] == b@[j],
        decreases n - i,
    {
        if a.get_char(i) != b.get_char(i) {
            return false;
        }
        i = i + 1;
    }
    proof {
        assert(a@ =~= b@);
    }
    true
}

/// How many times `c` occurs in `s`.
pub open spec fn char_count(s: Seq<char>, c: char) -> nat
    decreases s.len(),
{
    if s.len() == 0 {
        0
    } else {
        char_count(s.drop_last(), c) + (if s.last() == c {
            1nat
        } else {
            0nat
        })
    }
}

/// Occurrences in a one-character sequence.
pub proof fn lemma_char_count_one(a: char, c: char)
    ensures
        char_count(seq![a], c) == (if a == c {
            1nat
        } else {
            0nat
        }),
{
    assert(char_count(Seq::<char>::empty(), c) == 0);
    assert(seq![a].drop_last() =~= Seq::<char>::empty());
    assert(seq![a].last() == a);
}

/// Occurrences in a two-character sequence.
pub proof fn lemma_char_count_two(a: char, b: char, c: char)
    ensures
        char_count(seq![a, b], c) == (if a == c {
            1nat
        } else {
            0nat
        }) + (if b == c {
            1nat
        } else {
            0nat
        }),
{
    lemma_char_count_one(a, c);
    assert(seq![a, b].drop_last() =~= seq![a]);
    assert(seq![a, b].last() == b);
    assert(char_count(seq![a, b], c) == char_count(seq![a, b].drop_last(), c) + (if b == c {
        1nat
    } else {
        0nat
    }));
}

/// Occurrences in a four-character sequence.
pub proof fn lemma_char_count_four(a: char, b: char, d: char, e: char, c: char)
    ensures
        char_count(seq![a, b, d, e], c) == (if a == c {
            1nat
        } else {
            0nat
        }) + (if b == c {
            1nat
        } else {
            0nat
        }) + (if d == c {
            1nat
        } else {
            0nat
        }) + (if e == c {
            1nat
        } else {
            0nat
        }),
{
    lemma_char_count_two(a, b, c);
    assert(seq![a, b, d].drop_last() =~= seq![a, b]);
    assert(seq![a, b, d].last() == d);
    assert(char_count(seq![a, b, d], c) == char_count(seq![a, b, d].drop_last(), c) + (if d == c {
        1nat
    } else {
        0nat
    }));
    assert(seq![a, b, d, e].drop_last() =~= seq![a, b, d]);
    assert(seq![a, b, d, e].last() == e);
    assert(char_count(seq![a, b, d, e], c) == char_count(seq![a, b, d, e].drop_last(), c) + (if e
        == c {
        1nat
    } else {
        0nat
    }));
}

/// Occurrences in a concatenation add up.
pub proof fn lemma_char_count_concat(a: Seq<char>, b: Seq<char>, c: char)
    ensures
        char_count(a + b, c) == char_count(a, c) + char_count(b, c),
    decreases b.len(),
{
    if b.len() == 0 {
        assert(a + b =~= a);
    } else {
        assert((a + b).drop_last() =~= a + b.drop_last());
        assert((a + b).last() == b.last());
        lemma_char_count_concat(a, b.drop_last(), c);
    }
}

} // verus!
