use vstd::prelude::*;

verus! {

/// The character that stands for the decimal digit `d`.
pub open spec fn digit_char(d: nat) -> char {
    (48 + d) as char
}

/// The decimal notation of `n`, most significant digit first, without
/// leading zeros (zero itself is written `0`).
pub open spec fn decimal_chars(n: nat) -> Seq<char>
    decreases n,
{
    if n < 10 {
        seq![digit_char(n)]
    } else {
        decimal_chars(n / 10) + seq![digit_char(n % 10)]
    }
}

fn digit_str(d: u64) -> (s: &'static str)
    requires
        d < 10,
    ensures
        s@ == seq![digit_char(d as nat)],
{
    proof {
        reveal_strlit("0");
        reveal_strlit("1");
        reveal_strlit("2");
        reveal_strlit("3");
        reveal_strlit("4");
        reveal_strlit("5");
        reveal_strlit("6");
        reveal_strlit("7");
        reveal_strlit("8");
        reveal_strlit("9");
    }
    match d {
        0 => "0",
        1 => "1",
        2 => "2",
        3 => "3",
        4 => "4",
        5 => "5",
        6 => "6",
        7 => "7",
        8 => "8",
        _ => "9",
    }
}

/// Writes `n` in decimal, as `n.to_string()` does.
pub fn decimal(n: u64) -> (s: String)
    ensures
        s@ == decimal_chars(n as nat),
    decreases n,
{
    if n < 10 {
        String::from_str(digit_str(n))
    } else {
        let mut s = decimal(n / 10);
        s.append(digit_str(n % 10));
        s
    }
}


/// Whether `c` is white space in the sense of `char::is_whitespace`
/// (the Unicode `White_Space` property).
pub open spec fn is_white(c: char) -> bool {
    let v = c as u32;
    ||| 9 <= v <= 13
    ||| v == 32
    ||| v == 0x85
    ||| v == 0xa0
    ||| v == 0x1680
    ||| 0x2000 <= v <= 0x200a
    ||| v == 0x2028
    ||| v == 0x2029
    ||| v == 0x202f
    ||| v == 0x205f
    ||| v == 0x3000
}

/// Tells white space apart as `char::is_whitespace` does.
pub fn is_white_space(c: char) -> (b: bool)
    ensures
        b == is_white(c),
{
    let v = c as u32;
    (9 <= v && v <= 13) || v == 32 || v == 0x85 || v == 0xa0 || v == 0x1680 || (0x2000 <= v
        && v <= 0x200a) || v == 0x2028 || v == 0x2029 || v == 0x202f || v == 0x205f || v
        == 0x3000
}

/// `s` without its leading white space.
pub open spec fn trim_start(s: Seq<char>) -> Seq<char>
    decreases s.len(),
{
    if s.len() > 0 && is_white(s[0]) {
        trim_start(s.drop_first())
    } else {
        s
    }
}

/// `s` without its trailing white space.
pub open spec fn trim_end(s: Seq<char>) -> Seq<char>
    decreases s.len(),
{
    if s.len() > 0 && is_white(s.last()) {
        trim_end(s.drop_last())
    } else {
        s
    }
}

/// `s` without white space at either end, as `str::trim` gives it.
pub open spec fn trim(s: Seq<char>) -> Seq<char> {
    trim_end(trim_start(s))
}

/// The bounds of the trimmed part of `cs[lo..hi]`.
pub(crate) fn trim_bounds(cs: &Vec<char>, lo: usize, hi: usize) -> (r: (usize, usize))
    requires
        lo <= hi <= cs@.len(),
    ensures
        lo <= r.0 <= r.1 <= hi,
        cs@.subrange(r.0 as int, r.1 as int) == trim(cs@.subrange(lo as int, hi as int)),
{
    let mut a = lo;
    while a < hi && is_white_space(cs[a])
        invariant
            lo <= a <= hi <= cs@.len(),
            trim_start(cs@.subrange(lo as int, hi as int)) == trim_start(
                cs@.subrange(a as int, hi as int),
            ),
        decreases hi - a,
    {
        assert(cs@.subrange(a as int, hi as int).drop_first() =~= cs@.subrange(
            a + 1,
            hi as int,
        ));
        a = a + 1;
    }
    let mut b = hi;
    while b > a && is_white_space(cs[b - 1])
        invariant
            lo <= a <= b <= hi <= cs@.len(),
            trim_end(cs@.subrange(a as int, hi as int)) == trim_end(
                cs@.subrange(a as int, b as int),
            ),
        decreases b - a,
    {
        assert(cs@.subrange(a as int, b as int).drop_last() =~= cs@.subrange(
            a as int,
            b - 1,
        ));
        b = b - 1;
    }
    (a, b)
}

/// The characters of `text`, one by one.
pub(crate) fn chars_of(text: &str) -> (cs: Vec<char>)
    ensures
        cs@ == text@,
{
    let mut cs: Vec<char> = Vec::new();
    for c in it: text.chars()
        invariant
            cs@ == it.seq().take(it.index() as int),
    {
        cs.push(c);
    }
    cs
}


/// The number of characters of `s` before its first `c` (all of them when
/// `s` holds no `c`).
pub open spec fn count_before(s: Seq<char>, c: char) -> nat
    decreases s.len(),
{
    if s.len() == 0 || s[0] == c {
        0
    } else {
        1 + count_before(s.drop_first(), c)
    }
}

/// The pieces of `text` between line feeds, as `str::split('\n')` yields
/// them: one more piece than `text` has line feeds.
pub open spec fn split_lines(text: Seq<char>) -> Seq<Seq<char>>
    decreases text.len(),
{
    let k = count_before(text, '\n');
    if k < text.len() {
        seq![text.take(k as int)] + split_lines(text.skip(k + 1 as int))
    } else {
        seq![text]
    }
}

/// The characters before the first `c` are counted by `count_before`.
pub proof fn lemma_count_before(s: Seq<char>, c: char, k: int)
    requires
        0 <= k <= s.len(),
        forall|j: int| 0 <= j < k ==> s[j] != c,
        k == s.len() || s[k] == c,
    ensures
        count_before(s, c) == k,
    decreases k,
{
    if k > 0 {
        lemma_count_before(s.drop_first(), c, k - 1);
    }
}

/// Where the piece of `cs` that starts at `start` ends: at the next line
/// feed, or at the end of `cs`.
pub(crate) fn line_end(cs: &Vec<char>, start: usize) -> (j: usize)
    requires
        start <= cs@.len(),
    ensures
        start <= j <= cs@.len(),
        j < cs@.len() ==> cs@[j as int] == '\n',
        forall|t: int| start <= t < j ==> cs@[t] != '\n',
        split_lines(cs@.skip(start as int)) == if j < cs@.len() {
            seq![cs@.subrange(start as int, j as int)] + split_lines(cs@.skip(j + 1))
        } else {
            seq![cs@.subrange(start as int, j as int)]
        },
{
    let n = cs.len();
    let mut j = start;
    while j < n && cs[j] != '\n'
        invariant
            start <= j <= n == cs@.len(),
            forall|t: int| start <= t < j ==> cs@[t] != '\n',
        decreases n - j,
    {
        j = j + 1;
    }
    proof {
        let rest = cs@.skip(start as int);
        lemma_count_before(rest, '\n', j - start);
        assert(rest.take(j - start) =~= cs@.subrange(start as int, j as int));
        if j < n {
            assert(rest.skip(j - start + 1) =~= cs@.skip(j + 1));
        } else {
            assert(rest =~= cs@.subrange(start as int, j as int));
        }
    }
    j
}


/// Whether `c` is one of the ASCII digits `0` to `9`.
pub open spec fn is_digit(c: char) -> bool {
    48 <= c as u32 <= 57
}

/// Whether every character of `s` is an ASCII digit.
pub open spec fn all_digits(s: Seq<char>) -> bool {
    forall|i: int| 0 <= i < s.len() ==> is_digit(#[trigger] s[i])
}

/// The number that the digits `s` spell in decimal.
pub open spec fn digits_value(s: Seq<char>) -> nat
    decreases s.len(),
{
    if s.len() == 0 {
        0
    } else {
        digits_value(s.drop_last()) * 10 + ((s.last() as u32) - 48) as nat
    }
}

/// What `str::parse::<u32>` reads from `s`: an optional `+`, then one or
/// more ASCII digits whose value fits in a `u32`; anything else is refused.
pub open spec fn parse_u32(s: Seq<char>) -> Option<u32> {
    let d = if s.len() > 0 && s[0] == '+' {
        s.drop_first()
    } else {
        s
    };
    if d.len() > 0 && all_digits(d) && digits_value(d) <= u32::MAX {
        Some(digits_value(d) as u32)
    } else {
        None
    }
}

/// A prefix of a string of digits is worth no more than the whole.
pub proof fn lemma_digits_value_prefix(s: Seq<char>, k: int)
    requires
        0 <= k <= s.len(),
        all_digits(s),
    ensures
        digits_value(s.take(k)) <= digits_value(s),
    decreases s.len(),
{
    if k < s.len() {
        let init = s.drop_last();
        assert(all_digits(init)) by {
            assert forall|i: int| 0 <= i < init.len() implies is_digit(#[trigger] init[i]) by {
                assert(init[i] == s[i]);
            }
        }
        lemma_digits_value_prefix(init, k);
        assert(init.take(k) =~= s.take(k));
    } else {
        assert(s.take(k) =~= s);
    }
}

/// Reads `cs[lo..hi]` as `str::parse::<u32>` does.
pub(crate) fn parse_u32_in(cs: &Vec<char>, lo: usize, hi: usize) -> (r: Option<u32>)
    requires
        lo <= hi <= cs@.len(),
    ensures
        r == parse_u32(cs@.subrange(lo as int, hi as int)),
{
    let ghost s = cs@.subrange(lo as int, hi as int);
    let mut start = lo;
    if start < hi && cs[start] == '+' {
        start = start + 1;
    }
    let ghost d = cs@.subrange(start as int, hi as int);
    assert(d =~= if s.len() > 0 && s[0] == '+' {
        s.drop_first()
    } else {
        s
    });
    if start == hi {
        return None;
    }
    let mut acc: u64 = 0;
    let mut i = start;
    while i < hi
        invariant
            lo <= start < hi <= cs@.len(),
            start <= i <= hi,
            d == cs@.subrange(start as int, hi as int),
            s == cs@.subrange(lo as int, hi as int),
            d == if s.len() > 0 && s[0] == '+' {
                s.drop_first()
            } else {
                s
            },
            all_digits(cs@.subrange(start as int, i as int)),
            acc == digits_value(cs@.subrange(start as int, i as int)),
            acc <= u32::MAX,
        decreases hi - i,
    {
        let c = cs[i];
        let v = c as u32;
        let ghost prefix = cs@.subrange(start as int, i + 1);
        assert(prefix.drop_last() =~= cs@.subrange(start as int, i as int));
        if v < 48 || v > 57 {
            assert(d[i - start] == c);
            assert(!is_digit(d[i - start]));
            return None;
        }
        acc = acc * 10 + (v - 48) as u64;
        assert(all_digits(prefix)) by {
            assert forall|t: int| 0 <= t < prefix.len() implies is_digit(#[trigger] prefix[t]) by {
                if t < prefix.len() - 1 {
                    assert(prefix[t] == cs@.subrange(start as int, i as int)[t]);
                }
            }
        }
        if acc > 0xffff_ffff {
            proof {
                if all_digits(d) {
                    lemma_digits_value_prefix(d, i + 1 - start);
                    assert(d.take(i + 1 - start) =~= prefix);
                }
            }
            return None;
        }
        i = i + 1;
    }
    assert(cs@.subrange(start as int, i as int) =~= d);
    Some(acc as u32)
}


/// The parts written one after another with `sep` between each two, as
/// `[..].join(sep)` writes them.
pub open spec fn joined(parts: Seq<Seq<char>>, sep: Seq<char>) -> Seq<char>
    decreases parts.len(),
{
    if parts.len() == 0 {
        Seq::empty()
    } else if parts.len() == 1 {
        parts[0]
    } else {
        parts[0] + sep + joined(parts.drop_first(), sep)
    }
}

/// Joining one more part appends the separator and the part.
pub proof fn lemma_joined_push(parts: Seq<Seq<char>>, sep: Seq<char>, x: Seq<char>)
    ensures
        joined(parts.push(x), sep) == if parts.len() == 0 {
            x
        } else {
            joined(parts, sep) + sep + x
        },
    decreases parts.len(),
{
    if parts.len() >= 1 {
        assert(parts.push(x).drop_first() =~= parts.drop_first().push(x));
        lemma_joined_push(parts.drop_first(), sep, x);
        if parts.len() >= 2 {
            assert(parts[0] + sep + (joined(parts.drop_first(), sep) + sep + x) =~= parts[0] + sep
                + joined(parts.drop_first(), sep) + sep + x);
        }
    }
}

/// Writes `parts` with `sep` between each two.
pub fn join(parts: &Vec<String>, sep: &str) -> (s: String)
    ensures
        s@ == joined(parts.deep_view(), sep@),
{
    let mut s = String::new();
    let n = parts.len();
    for i in 0..n
        invariant
            n == parts@.len(),
            s@ == joined(parts.deep_view().take(i as int), sep@),
    {
        proof {
            lemma_joined_push(parts.deep_view().take(i as int), sep@, parts[i as int]@);
            assert(parts.deep_view().take(i + 1) =~= parts.deep_view().take(i as int).push(
                parts[i as int]@,
            ));
        }
        if i > 0 {
            s.append(sep);
        }
        s.append(parts[i].as_str());
    }
    assert(parts.deep_view().take(n as int) =~= parts.deep_view());
    s
}

/// The decimal notation of `n` is a non-empty string of digits worth `n`.
pub proof fn lemma_decimal_digits(n: nat)
    ensures
        decimal_chars(n).len() > 0,
        all_digits(decimal_chars(n)),
        digits_value(decimal_chars(n)) == n,
    decreases n,
{
    let s = decimal_chars(n);
    assert(digit_char(n % 10) as u32 == 48 + n % 10);
    if n < 10 {
        assert(s.drop_last() =~= Seq::<char>::empty());
        assert(s.last() == digit_char(n % 10));
        assert(digits_value(Seq::<char>::empty()) == 0);
    } else {
        assert(s.last() == digit_char(n % 10));
        assert((n / 10) * 10 + n % 10 == n);
        lemma_decimal_digits(n / 10);
        let init = decimal_chars(n / 10);
        assert(s.drop_last() =~= init);
        assert forall|i: int| 0 <= i < s.len() implies is_digit(#[trigger] s[i]) by {
            if i < init.len() {
                assert(s[i] == init[i]);
            }
        }
    }
}

/// Reading back the decimal notation of an ID gives the ID: the ID that
/// `shimejictl mascot dismiss -i` is given is read as the one it was meant to
/// name.
pub proof fn law_decimal_reads_back(n: u32)
    ensures
        parse_u32(decimal_chars(n as nat)) == Some(n),
{
    lemma_decimal_digits(n as nat);
    let s = decimal_chars(n as nat);
    assert(is_digit(s[0]));
}

/// Trimming the start leaves a suffix, shorter when the text starts with
/// white space, and starting with something else when it is not empty.
pub proof fn lemma_trim_start_shape(s: Seq<char>)
    ensures
        trim_start(s).len() <= s.len(),
        trim_start(s) =~= s.skip(s.len() - trim_start(s).len()),
        s.len() > 0 && is_white(s[0]) ==> trim_start(s).len() < s.len(),
        s.len() > 0 && !is_white(s[0]) ==> trim_start(s) == s,
        trim_start(s).len() > 0 ==> !is_white(trim_start(s)[0]),
    decreases s.len(),
{
    if s.len() > 0 && is_white(s[0]) {
        lemma_trim_start_shape(s.drop_first());
        let t = trim_start(s.drop_first());
        assert(s.drop_first().skip(s.drop_first().len() - t.len()) =~= s.skip(s.len() - t.len()));
    }
}

/// Trimming the end leaves a prefix, shorter when the text ends with white
/// space, and ending with something else when it is not empty.
pub proof fn lemma_trim_end_shape(s: Seq<char>)
    ensures
        trim_end(s).len() <= s.len(),
        trim_end(s) =~= s.take(trim_end(s).len() as int),
        s.len() > 0 && is_white(s.last()) ==> trim_end(s).len() < s.len(),
        s.len() > 0 && !is_white(s.last()) ==> trim_end(s) == s,
        trim_end(s).len() > 0 ==> !is_white(trim_end(s).last()),
    decreases s.len(),
{
    if s.len() > 0 && is_white(s.last()) {
        lemma_trim_end_shape(s.drop_last());
        let t = trim_end(s.drop_last());
        assert(s.drop_last().take(t.len() as int) =~= s.take(t.len() as int));
    }
}

/// A text that neither starts nor ends with white space is its own trim.
pub proof fn lemma_trim_fixed(s: Seq<char>)
    requires
        s.len() > 0,
        !is_white(s[0]),
        !is_white(s.last()),
    ensures
        trim(s) == s,
{
    lemma_trim_start_shape(s);
    lemma_trim_end_shape(s);
}

/// A non-empty text that is its own trim neither starts nor ends with white
/// space.
pub proof fn lemma_trimmed_ends(s: Seq<char>)
    requires
        s.len() > 0,
        trim(s) == s,
    ensures
        !is_white(s[0]),
        !is_white(s.last()),
{
    lemma_trim_start_shape(s);
    lemma_trim_end_shape(trim_start(s));
    if trim_start(s).len() == s.len() {
        assert(trim_start(s) =~= s);
        lemma_trim_end_shape(s);
    }
}

/// Splitting lines joined by line feeds gives the lines back, when none of
/// them holds a line feed.
pub proof fn lemma_split_joined_lines(lines: Seq<Seq<char>>)
    requires
        lines.len() > 0,
        forall|i: int, j: int|
            0 <= i < lines.len() && 0 <= j < lines[i].len() ==> lines[i][j] != '\n',
    ensures
        split_lines(joined(lines, seq!['\n'])) == lines,
    decreases lines.len(),
{
    let x = lines[0];
    let text = joined(lines, seq!['\n']);
    if lines.len() == 1 {
        lemma_count_before(x, '\n', x.len() as int);
        assert(split_lines(text) =~= lines);
    } else {
        let rest = lines.drop_first();
        assert forall|i: int, j: int|
            0 <= i < rest.len() && 0 <= j < rest[i].len() implies rest[i][j] != '\n' by {
            assert(rest[i] == lines[i + 1]);
        }
        lemma_split_joined_lines(rest);
        let tail = joined(rest, seq!['\n']);
        assert(text == x + seq!['\n'] + tail);
        lemma_count_before(text, '\n', x.len() as int);
        assert(text.take(x.len() as int) =~= x);
        assert(text.skip(x.len() + 1 as int) =~= tail);
        assert(split_lines(text) =~= seq![x] + rest);
        assert(seq![x] + rest =~= lines);
    }
}


/// Trimming leaves a part of the text: the trimmed text is `s[a..b]` for
/// some bounds, and it has no white space at its ends.
pub proof fn lemma_trim_shape(s: Seq<char>)
    ensures
        exists|a: int, b: int| 0 <= a <= b <= s.len() && trim(s) == s.subrange(a, b),
        trim(s).len() > 0 ==> !is_white(trim(s)[0]) && !is_white(trim(s).last()),
        trim(trim(s)) == trim(s),
{
    let u = trim_start(s);
    lemma_trim_start_shape(s);
    lemma_trim_end_shape(u);
    let t = trim_end(u);
    let a = s.len() - u.len();
    let b = a + t.len();
    assert(t =~= s.subrange(a, b));
    if t.len() > 0 {
        assert(t[0] == u[0]);
        lemma_trim_fixed(t);
    } else {
        assert(trim(t) =~= t);
    }
}

/// The number of characters before the first `c` counts characters that are
/// not `c`, and is followed by a `c` unless it reaches the end.
pub proof fn lemma_count_before_shape(s: Seq<char>, c: char)
    ensures
        count_before(s, c) <= s.len(),
        forall|j: int| 0 <= j < count_before(s, c) ==> s[j] != c,
        count_before(s, c) < s.len() ==> s[count_before(s, c) as int] == c,
    decreases s.len(),
{
    if s.len() > 0 && s[0] != c {
        lemma_count_before_shape(s.drop_first(), c);
        assert forall|j: int| 0 <= j < count_before(s, c) implies s[j] != c by {
            if j > 0 {
                assert(s[j] == s.drop_first()[j - 1]);
            }
        }
    }
}

/// No piece between line feeds holds a line feed.
pub proof fn lemma_split_lines_pieces(text: Seq<char>)
    ensures
        forall|i: int, j: int|
            0 <= i < split_lines(text).len() && 0 <= j < split_lines(text)[i].len()
                ==> split_lines(text)[i][j] != '\n',
    decreases text.len(),
{
    let k = count_before(text, '\n');
    lemma_count_before_shape(text, '\n');
    if k < text.len() {
        let rest = text.skip(k + 1 as int);
        lemma_split_lines_pieces(rest);
        let pieces = split_lines(text);
        assert forall|i: int, j: int|
            0 <= i < pieces.len() && 0 <= j < pieces[i].len() implies pieces[i][j] != '\n' by {
            if i > 0 {
                assert(pieces[i] == split_lines(rest)[i - 1]);
            } else {
                assert(pieces[i][j] == text[j]);
            }
        }
    }
}


/// A text that ends with a character other than white space does not trim
/// to nothing.
pub proof fn lemma_trim_keeps_last(s: Seq<char>)
    requires
        s.len() > 0,
        !is_white(s.last()),
    ensures
        trim(s).len() > 0,
    decreases s.len(),
{
    if is_white(s[0]) {
        assert(s.len() > 1);
        assert(s.drop_first().last() == s.last());
        lemma_trim_keeps_last(s.drop_first());
    } else {
        lemma_trim_start_shape(s);
        lemma_trim_end_shape(s);
    }
}

} // verus!
