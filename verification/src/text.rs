//! Characters of the language and the scanning of branch text.

use vstd::prelude::*;

verus! {

/// A decimal digit.
pub open spec fn digit(c: char) -> bool {
    '0' <= c && c <= '9'
}

/// One of the seven action characters.
pub open spec fn action_char(c: char) -> bool {
    c == '>' || c == '<' || c == '!' || c == '{' || c == '}' || c == '/' || c == '\\'
}

/// A character that may appear in a branch: an action or a digit.
pub open spec fn valid_char(c: char) -> bool {
    digit(c) || action_char(c)
}

/// The first index at or after `from` whose character is a digit exactly when
/// `want` is false, or the length of `s` when there is none: the end of the
/// run of digits (`want`) or of non-digits (`!want`) that starts at `from`.
pub open spec fn run_end(s: Seq<char>, from: int, want: bool) -> int
    decreases s.len() - from,
{
    if from < 0 || from >= s.len() {
        s.len() as int
    } else if digit(s[from]) != want {
        from
    } else {
        run_end(s, from + 1, want)
    }
}

/// Index of the first digit of `s`, or its length when it has none.
pub open spec fn first_digit(s: Seq<char>) -> int {
    run_end(s, 0, false)
}

/// Length of the part of `s` that can affect control flow: the non-digits
/// before the first digit, then the digits that follow without interruption.
pub open spec fn leading_len(s: Seq<char>) -> int {
    run_end(s, first_digit(s), true)
}

/// The part of `s` up to the end of its first run of digits.
pub open spec fn leading(s: Seq<char>) -> Seq<char> {
    s.take(leading_len(s))
}

/// A run ends inside the text; it holds only what was wanted, and what
/// stands at its end, if anything does, was not wanted.
pub proof fn lemma_run_end_bounds(s: Seq<char>, from: int, want: bool)
    requires
        0 <= from <= s.len(),
    ensures
        from <= run_end(s, from, want) <= s.len(),
        forall|i: int| from <= i < run_end(s, from, want) ==> digit(#[trigger] s[i]) == want,
        run_end(s, from, want) < s.len() ==> digit(s[run_end(s, from, want)]) != want,
    decreases s.len() - from,
{
    if from < s.len() && digit(s[from]) == want {
        lemma_run_end_bounds(s, from + 1, want);
    }
}

/// Every character is a Unicode scalar value.
pub proof fn lemma_char_range(c: char)
    ensures
        0 <= c as int <= 0xD7ff || 0xE000 <= c as int <= 0x10FFFF,
{
}

/// Whether `c` is a decimal digit.
pub fn is_digit(c: &char) -> (r: bool)
    ensures
        r == digit(*c),
{
    *c >= '0' && *c <= '9'
}

/// Whether `c` may appear in a branch: whether it is an action character or
/// a digit.
pub fn is_valid(c: &char) -> (r: bool)
    ensures
        r == valid_char(*c),
{
    is_digit(c) || *c == '<' || *c == '>' || *c == '!' || *c == '{' || *c == '}' || *c == '/'
        || *c == '\\'
}

/// The characters of `text`, in order.
pub fn chars_of(text: &str) -> (out: Vec<char>)
    ensures
        out@ == text@,
{
    let mut out: Vec<char> = Vec::new();
    for c in it: text.chars()
        invariant
            it.seq() == text@,
            out@ == text@.take(it.index() as int),
    {
        out.push(c);
    }
    out
}

/// Exec form of [`run_end`].
pub fn scan_run(s: &Vec<char>, from: usize, want: bool) -> (end: usize)
    requires
        from <= s.len(),
    ensures
        end == run_end(s@, from as int, want),
        from <= end <= s.len(),
{
    let mut i: usize = from;
    while i < s.len() && is_digit(&s[i]) == want
        invariant
            from <= i <= s.len(),
            run_end(s@, i as int, want) == run_end(s@, from as int, want),
        decreases s.len() - i,
    {
        i += 1;
    }
    proof {
        lemma_run_end_bounds(s@, from as int, want);
    }
    i
}

/// Cuts `s` off after its first run of digits.
pub fn remove_excess(s: &String) -> (res: String)
    ensures
        res@ == leading(s@),
{
    let chars = chars_of(s.as_str());
    let start = scan_run(&chars, 0, false);
    let end = scan_run(&chars, start, true);
    s.as_str().substring_char(0, end).to_owned()
}

/// The views of a vector of character vectors.
pub open spec fn texts(v: Seq<Vec<char>>) -> Seq<Seq<char>> {
    v.map_values(|p: Vec<char>| p@)
}

/// The pieces of `s` between occurrences of `sep`, in order. There is always
/// one piece more than there are separators; pieces may be empty.
pub open spec fn split(s: Seq<char>, sep: char) -> Seq<Seq<char>>
    decreases s.len(),
{
    if s.len() == 0 {
        seq![Seq::<char>::empty()]
    } else {
        let before = split(s.drop_last(), sep);
        if s.last() == sep {
            before.push(Seq::<char>::empty())
        } else {
            before.drop_last().push(before.last().push(s.last()))
        }
    }
}

/// The pieces joined again, with `sep` between neighbours.
pub open spec fn join(pieces: Seq<Seq<char>>, sep: char) -> Seq<char>
    decreases pieces.len(),
{
    if pieces.len() == 0 {
        Seq::<char>::empty()
    } else if pieces.len() == 1 {
        pieces[0]
    } else {
        join(pieces.drop_last(), sep).push(sep) + pieces.last()
    }
}

/// Splitting loses nothing: there is at least one piece, no piece holds the
/// separator, and joining the pieces gives the text back.
pub proof fn lemma_split_join(s: Seq<char>, sep: char)
    ensures
        split(s, sep).len() >= 1,
        forall|k: int| 0 <= k < split(s, sep).len() ==> !(#[trigger] split(s, sep)[k]).contains(sep),
        join(split(s, sep), sep) == s,
    decreases s.len(),
{
    if s.len() > 0 {
        let before = split(s.drop_last(), sep);
        lemma_split_join(s.drop_last(), sep);
        let now = split(s, sep);
        if s.last() == sep {
            assert(now.drop_last() =~= before);
        } else {
            assert(now.drop_last() =~= before.drop_last());
            assert(s.drop_last().push(s.last()) =~= s);
        }
    }
}

/// Exec form of [`split`].
pub fn split_chars(s: &Vec<char>, sep: char) -> (pieces: Vec<Vec<char>>)
    ensures
        texts(pieces@) == split(s@, sep),
{
    let mut pieces: Vec<Vec<char>> = Vec::new();
    let mut current: Vec<char> = Vec::new();
    let mut i: usize = 0;
    while i < s.len()
        invariant
            i <= s.len(),
            texts(pieces@).push(current@) == split(s@.take(i as int), sep),
        decreases s.len() - i,
    {
        let c = s[i];
        proof {
            assert(s@.take(i + 1).drop_last() =~= s@.take(i as int));
        }
        if c == sep {
            pieces.push(current);
            current = Vec::new();
        } else {
            current.push(c);
        }
        i += 1;
    }
    pieces.push(current);
    proof {
        assert(s@.take(s@.len() as int) =~= s@);
    }
    pieces
}

/// Index at or after `from` where the first comment marker, two slashes in a
/// row, begins; the length of `s` when there is none.
pub open spec fn comment_start(s: Seq<char>, from: int) -> int
    decreases s.len() - from,
{
    if from < 0 || from + 1 >= s.len() {
        s.len() as int
    } else if s[from] == '/' && s[from + 1] == '/' {
        from
    } else {
        comment_start(s, from + 1)
    }
}

/// The line without its comment: everything before the first marker.
pub open spec fn strip_comment(s: Seq<char>) -> Seq<char> {
    s.take(comment_start(s, 0))
}

/// The comment starts inside the line or at its end; where it starts
/// inside, two slashes stand, and before it no two slashes stand in a row.
pub proof fn lemma_comment_start(s: Seq<char>, from: int)
    requires
        0 <= from <= s.len(),
    ensures
        from <= comment_start(s, from) <= s.len(),
        comment_start(s, from) < s.len() ==> comment_start(s, from) + 1 < s.len() && s[comment_start(
            s,
            from,
        )] == '/' && s[comment_start(s, from) + 1] == '/',
        forall|i: int|
            from <= i < comment_start(s, from) && i + 1 < s.len() ==> !(#[trigger] s[i] == '/' && s[i
                + 1] == '/'),
    decreases s.len() - from,
{
    if from + 1 < s.len() && !(s[from] == '/' && s[from + 1] == '/') {
        lemma_comment_start(s, from + 1);
    }
}

/// The first `n` characters of `s`.
pub fn prefix(s: &Vec<char>, n: usize) -> (out: Vec<char>)
    requires
        n <= s.len(),
    ensures
        out@ == s@.take(n as int),
{
    slice_of(s, 0, n)
}

/// The characters of `s` from `from` up to, not including, `to`.
pub fn slice_of(s: &Vec<char>, from: usize, to: usize) -> (out: Vec<char>)
    requires
        from <= to <= s.len(),
    ensures
        out@ == s@.subrange(from as int, to as int),
{
    let mut out: Vec<char> = Vec::new();
    let mut i: usize = from;
    while i < to
        invariant
            from <= i <= to <= s.len(),
            out@ == s@.subrange(from as int, i as int),
        decreases to - i,
    {
        out.push(s[i]);
        i += 1;
    }
    out
}

/// Exec form of [`strip_comment`].
pub fn without_comment(s: &Vec<char>) -> (out: Vec<char>)
    ensures
        out@ == strip_comment(s@),
{
    let mut i: usize = 0;
    while i < s.len() && !(i + 1 < s.len() && s[i] == '/' && s[i + 1] == '/')
        invariant
            i <= s.len(),
            comment_start(s@, i as int) == comment_start(s@, 0),
        decreases s.len() - i,
    {
        i += 1;
    }
    proof {
        lemma_comment_start(s@, 0);
    }
    prefix(s, i)
}

/// White space as `str::trim` understands it: the characters with the Unicode
/// property `White_Space`.
pub open spec fn white_space(c: char) -> bool {
    ||| '\u{9}' <= c && c <= '\u{d}'
    ||| c == ' '
    ||| c == '\u{85}'
    ||| c == '\u{a0}'
    ||| c == '\u{1680}'
    ||| '\u{2000}' <= c && c <= '\u{200a}'
    ||| c == '\u{2028}'
    ||| c == '\u{2029}'
    ||| c == '\u{202f}'
    ||| c == '\u{205f}'
    ||| c == '\u{3000}'
}

/// Whether `c` is white space.
pub fn is_space(c: char) -> (r: bool)
    ensures
        r == white_space(c),
{
    (c >= '\u{9}' && c <= '\u{d}') || c == ' ' || c == '\u{85}' || c == '\u{a0}' || c
        == '\u{1680}' || (c >= '\u{2000}' && c <= '\u{200a}') || c == '\u{2028}' || c
        == '\u{2029}' || c == '\u{202f}' || c == '\u{205f}' || c == '\u{3000}'
}

/// The first index at or after `from` that holds no white space, or the
/// length of `s`.
pub open spec fn space_end(s: Seq<char>, from: int) -> int
    decreases s.len() - from,
{
    if from < 0 || from >= s.len() {
        s.len() as int
    } else if !white_space(s[from]) {
        from
    } else {
        space_end(s, from + 1)
    }
}

/// `s` without the white space at its end.
pub open spec fn trim_end(s: Seq<char>) -> Seq<char>
    decreases s.len(),
{
    if s.len() > 0 && white_space(s.last()) {
        trim_end(s.drop_last())
    } else {
        s
    }
}

/// `s` without the white space at its start.
pub open spec fn trim_start(s: Seq<char>) -> Seq<char> {
    s.skip(space_end(s, 0))
}

/// `s` without the white space at either end.
pub open spec fn trim(s: Seq<char>) -> Seq<char> {
    trim_end(trim_start(s))
}

/// Exec form of [`trim`].
pub fn trimmed(s: &Vec<char>) -> (out: Vec<char>)
    ensures
        out@ == trim(s@),
{
    let mut a: usize = 0;
    while a < s.len() && is_space(s[a])
        invariant
            a <= s.len(),
            space_end(s@, a as int) == space_end(s@, 0),
        decreases s.len() - a,
    {
        a += 1;
    }
    let mut b: usize = s.len();
    while b > a && is_space(s[b - 1])
        invariant
            a <= b <= s.len(),
            trim_end(s@.subrange(a as int, b as int)) == trim(s@),
        decreases b,
    {
        proof {
            assert(s@.subrange(a as int, b as int).drop_last() =~= s@.subrange(
                a as int,
                b - 1,
            ));
        }
        b -= 1;
    }
    slice_of(s, a, b)
}

/// Whether two vectors hold the same characters.
pub fn same_chars(a: &Vec<char>, b: &Vec<char>) -> (r: bool)
    ensures
        r == (a@ == b@),
{
    if a.len() != b.len() {
        return false;
    }
    let mut i: usize = 0;
    while i < a.len()
        invariant
            i <= a.len(),
            a.len() == b.len(),
            a@.take(i as int) == b@.take(i as int),
        decreases a.len() - i,
    {
        if a[i] != b[i] {
            return false;
        }
        i += 1;
    }
    assert(a@.take(a@.len() as int) =~= a@);
    assert(b@.take(b@.len() as int) =~= b@);
    true
}

/// The digits of `s`, in the order in which they appear.
pub open spec fn digits(s: Seq<char>) -> Seq<char>
    decreases s.len(),
{
    if s.len() == 0 {
        s
    } else if digit(s.last()) {
        digits(s.drop_last()).push(s.last())
    } else {
        digits(s.drop_last())
    }
}

/// What a digit stands for.
pub open spec fn digit_value(c: char) -> nat {
    (c as int - '0' as int) as nat
}

/// The number that a string of digits writes in base ten.
pub open spec fn decimal(ds: Seq<char>) -> nat
    decreases ds.len(),
{
    if ds.len() == 0 {
        0
    } else {
        decimal(ds.drop_last()) * 10 + digit_value(ds.last())
    }
}

/// The largest state index that a jump can name; larger numbers stand for it.
pub const TARGET_MAX: u64 = 0xffff_ffff_ffff_ffff;

/// `v`, or `TARGET_MAX` if `v` is larger.
pub open spec fn capped(v: nat) -> nat {
    if v > TARGET_MAX {
        TARGET_MAX as nat
    } else {
        v
    }
}

/// The state that a branch jumps to: all its digits, wherever they stand,
/// read as one decimal number. `None` for a branch without digits.
pub open spec fn jump_target(path: Seq<char>) -> Option<nat> {
    if digits(path).len() == 0 {
        None
    } else {
        Some(capped(decimal(digits(path))))
    }
}

/// Exec form of [`jump_target`].
pub fn parse_jump(path: &Vec<char>) -> (jump: Option<u64>)
    ensures
        jump.is_some() == jump_target(path@).is_some(),
        jump.is_some() ==> jump.unwrap() as nat == jump_target(path@).unwrap(),
{
    let mut value: u64 = 0;
    let mut any = false;
    let mut over = false;
    let mut i: usize = 0;
    while i < path.len()
        invariant
            i <= path.len(),
            any == (digits(path@.take(i as int)).len() > 0),
            !over ==> value as nat == decimal(digits(path@.take(i as int))),
            over ==> decimal(digits(path@.take(i as int))) > TARGET_MAX,
        decreases path.len() - i,
    {
        let c = path[i];
        proof {
            assert(path@.take(i + 1).drop_last() =~= path@.take(i as int));
        }
        if is_digit(&c) {
            let ghost old_digits = digits(path@.take(i as int));
            proof {
                assert(old_digits.push(c).drop_last() =~= old_digits);
            }
            any = true;
            if !over {
                let d: u64 = c as u64 - '0' as u64;
                match value.checked_mul(10) {
                    Some(tens) => match tens.checked_add(d) {
                        Some(sum) => {
                            value = sum;
                        },
                        None => {
                            over = true;
                        },
                    },
                    None => {
                        over = true;
                    },
                }
            }
        }
        i += 1;
    }
    proof {
        assert(path@.take(path@.len() as int) =~= path@);
    }
    if !any {
        None
    } else if over {
        Some(TARGET_MAX)
    } else {
        Some(value)
    }
}

} // verus!
