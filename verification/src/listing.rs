use vstd::prelude::*;

use crate::text::{
    chars_of, count_before, decimal_chars, is_digit, is_white, joined, lemma_count_before,
    lemma_count_before_shape, lemma_decimal_digits, lemma_joined_push, lemma_split_joined_lines,
    lemma_trim_fixed, lemma_trimmed_ends,
    law_decimal_reads_back, lemma_split_lines_pieces, lemma_trim_keeps_last, lemma_trim_shape,
    line_end, parse_u32, parse_u32_in, split_lines, trim, trim_bounds,
};

verus! {

/// The names that a listing of prototypes holds, one per piece: each piece
/// trimmed, the pieces that trim to nothing left out.
pub open spec fn names_in(pieces: Seq<Seq<char>>) -> Seq<Seq<char>>
    decreases pieces.len(),
{
    if pieces.len() == 0 {
        seq![]
    } else {
        let name = trim(pieces[0]);
        let rest = names_in(pieces.drop_first());
        if name.len() > 0 {
            seq![name] + rest
        } else {
            rest
        }
    }
}

/// The prototype names in the output of `shimejictl prototypes list`: its
/// lines, trimmed, without the blank ones. Cutting at line feeds alone gives
/// the lines that `str::lines` gives, once trimmed: the carriage return of a
/// `\r\n` ending is white space, and an empty last piece is blank.
pub open spec fn prototype_names(text: Seq<char>) -> Seq<Seq<char>> {
    names_in(split_lines(text))
}

/// Reads the output of `shimejictl prototypes list`: one prototype name per
/// line, surrounding white space and blank lines dropped.
pub fn parse_prototypes(text: &str) -> (names: Vec<String>)
    ensures
        names.deep_view() == prototype_names(text@),
{
    let cs = chars_of(text);
    let n = cs.len();
    let mut names: Vec<String> = Vec::new();
    let mut start: usize = 0;
    assert(cs@.skip(0) =~= cs@);
    assert(names.deep_view() + prototype_names(cs@) =~= prototype_names(cs@));
    loop
        invariant_except_break
            start <= n,
            names.deep_view() + names_in(split_lines(cs@.skip(start as int))) == prototype_names(
                cs@,
            ),
        invariant
            n == cs@.len(),
            cs@ == text@,
        ensures
            names.deep_view() == prototype_names(cs@),
        decreases n - start,
    {
        let j = line_end(&cs, start);
        let (a, b) = trim_bounds(&cs, start, j);
        let ghost piece = cs@.subrange(start as int, j as int);
        let ghost before = names.deep_view();
        let ghost rest = if j < n {
            split_lines(cs@.skip(j + 1))
        } else {
            Seq::<Seq<char>>::empty()
        };
        assert((seq![piece] + rest).drop_first() =~= rest);
        assert(split_lines(cs@.skip(start as int)) =~= seq![piece] + rest);
        if a < b {
            let name = String::from_str(text.substring_char(a, b));
            names.push(name);
            assert(names.deep_view() =~= before + seq![trim(piece)]);
        }
        if j == n {
            assert(names_in(rest) =~= Seq::<Seq<char>>::empty());
            assert(names.deep_view() =~= names.deep_view() + names_in(rest));
            break;
        }
        start = j + 1;
    }
    names
}


/// A spawned mascot with its runtime ID and prototype name.
#[derive(Debug, Clone)]
pub struct ActiveMascot {
    pub id: u32,
    pub name: String,
}

impl View for ActiveMascot {
    type V = (u32, Seq<char>);

    open spec fn view(&self) -> (u32, Seq<char>) {
        (self.id, self.name@)
    }
}

impl DeepView for ActiveMascot {
    type V = (u32, Seq<char>);

    open spec fn deep_view(&self) -> (u32, Seq<char>) {
        self@
    }
}

/// `s` without the `#` signs it starts with, as `trim_start_matches('#')`
/// leaves it.
pub open spec fn strip_hashes(s: Seq<char>) -> Seq<char>
    decreases s.len(),
{
    if s.len() > 0 && s[0] == '#' {
        strip_hashes(s.drop_first())
    } else {
        s
    }
}

/// The mascot that one line of `shimejictl list` describes, as `#<id> <name>`:
/// the line is trimmed and cut at its first space; the part before it, with
/// its leading `#` signs dropped, must read as a `u32`, and the part after it,
/// trimmed, is the name. A line without a space describes no mascot.
pub open spec fn active_line(line: Seq<char>) -> Option<(u32, Seq<char>)> {
    let t = trim(line);
    let k = count_before(t, ' ');
    if k >= t.len() {
        None
    } else {
        match parse_u32(strip_hashes(t.take(k as int))) {
            Some(id) => Some((id, trim(t.skip(k + 1 as int)))),
            None => None,
        }
    }
}

/// The mascots that the pieces describe, in order, the pieces that describe
/// none left out.
pub open spec fn mascots_in(pieces: Seq<Seq<char>>) -> Seq<(u32, Seq<char>)>
    decreases pieces.len(),
{
    if pieces.len() == 0 {
        seq![]
    } else {
        let rest = mascots_in(pieces.drop_first());
        match active_line(pieces[0]) {
            Some(m) => seq![m] + rest,
            None => rest,
        }
    }
}

/// The mascots in the output of `shimejictl list`, one per line.
pub open spec fn active_mascots(text: Seq<char>) -> Seq<(u32, Seq<char>)> {
    mascots_in(split_lines(text))
}

/// Reads the mascot that `cs[lo..hi]` describes, taking the name from `text`.
fn active_line_in(text: &str, cs: &Vec<char>, lo: usize, hi: usize) -> (r: Option<ActiveMascot>)
    requires
        cs@ == text@,
        lo <= hi <= cs@.len(),
    ensures
        r is None <==> active_line(cs@.subrange(lo as int, hi as int)) is None,
        r matches Some(m) ==> active_line(cs@.subrange(lo as int, hi as int)) == Some(m@),
{
    let ghost line = cs@.subrange(lo as int, hi as int);
    let (a, b) = trim_bounds(cs, lo, hi);
    let ghost t = cs@.subrange(a as int, b as int);
    let mut k = a;
    while k < b && cs[k] != ' '
        invariant
            a <= k <= b <= cs@.len(),
            forall|j: int| a <= j < k ==> cs@[j] != ' ',
        decreases b - k,
    {
        k = k + 1;
    }
    proof {
        lemma_count_before(t, ' ', k - a);
    }
    if k >= b {
        return None;
    }
    let mut h = a;
    while h < k && cs[h] == '#'
        invariant
            a <= h <= k < b <= cs@.len(),
            strip_hashes(cs@.subrange(a as int, k as int)) == strip_hashes(
                cs@.subrange(h as int, k as int),
            ),
        decreases k - h,
    {
        assert(cs@.subrange(h as int, k as int).drop_first() =~= cs@.subrange(h + 1, k as int));
        h = h + 1;
    }
    assert(t.take(k - a) =~= cs@.subrange(a as int, k as int));
    assert(t.skip(k - a + 1) =~= cs@.subrange(k + 1, b as int));
    match parse_u32_in(cs, h, k) {
        None => None,
        Some(id) => {
            let (na, nb) = trim_bounds(cs, k + 1, b);
            let name = String::from_str(text.substring_char(na, nb));
            Some(ActiveMascot { id, name })
        },
    }
}

/// Reads one line of `shimejictl list`, as `#<id> <name>`.
pub fn parse_active_line(line: &str) -> (r: Option<ActiveMascot>)
    ensures
        r is None <==> active_line(line@) is None,
        r matches Some(m) ==> active_line(line@) == Some(m@),
{
    let cs = chars_of(line);
    assert(cs@.subrange(0, cs@.len() as int) =~= cs@);
    active_line_in(line, &cs, 0, cs.len())
}

/// Reads the output of `shimejictl list`: one mascot per line, written
/// `#<id> <name>`; lines that do not read so are passed over.
pub fn parse_active(text: &str) -> (mascots: Vec<ActiveMascot>)
    ensures
        mascots.deep_view() == active_mascots(text@),
{
    let cs = chars_of(text);
    let n = cs.len();
    let mut mascots: Vec<ActiveMascot> = Vec::new();
    let mut start: usize = 0;
    assert(cs@.skip(0) =~= cs@);
    assert(mascots.deep_view() + active_mascots(cs@) =~= active_mascots(cs@));
    loop
        invariant_except_break
            start <= n,
            mascots.deep_view() + mascots_in(split_lines(cs@.skip(start as int)))
                == active_mascots(cs@),
        invariant
            n == cs@.len(),
            cs@ == text@,
        ensures
            mascots.deep_view() == active_mascots(cs@),
        decreases n - start,
    {
        let j = line_end(&cs, start);
        let ghost piece = cs@.subrange(start as int, j as int);
        let ghost before = mascots.deep_view();
        let ghost rest = if j < n {
            split_lines(cs@.skip(j + 1))
        } else {
            Seq::<Seq<char>>::empty()
        };
        assert((seq![piece] + rest).drop_first() =~= rest);
        assert(split_lines(cs@.skip(start as int)) =~= seq![piece] + rest);
        match active_line_in(text, &cs, start, j) {
            Some(m) => {
                mascots.push(m);
                assert(mascots.deep_view() =~= before + seq![m@]);
            },
            None => {},
        }
        if j == n {
            assert(mascots_in(rest) =~= Seq::<(u32, Seq<char>)>::empty());
            assert(mascots.deep_view() =~= mascots.deep_view() + mascots_in(rest));
            break;
        }
        start = j + 1;
    }
    mascots
}


/// A name that a listing can carry unchanged: not empty, without white space
/// at either end, without a line feed.
pub open spec fn is_clean_name(name: Seq<char>) -> bool {
    &&& name.len() > 0
    &&& trim(name) == name
    &&& forall|j: int| 0 <= j < name.len() ==> name[j] != '\n'
}

/// The line of `shimejictl list` that describes `mascot`: `#<id> <name>`.
pub open spec fn listing_line(mascot: (u32, Seq<char>)) -> Seq<char> {
    seq!['#'] + decimal_chars(mascot.0 as nat) + seq![' '] + mascot.1
}

/// A line written `#<id> <name>` reads back as the mascot it was written
/// for, whenever the name is not empty and has no white space at its ends.
pub proof fn law_active_line_reads_back(mascot: (u32, Seq<char>))
    requires
        mascot.1.len() > 0,
        trim(mascot.1) == mascot.1,
    ensures
        active_line(listing_line(mascot)) == Some(mascot),
{
    let (id, name) = mascot;
    let d = decimal_chars(id as nat);
    let line = listing_line(mascot);
    lemma_decimal_digits(id as nat);
    lemma_trimmed_ends(name);
    assert(line[0] == '#');
    assert(line.last() == name.last());
    lemma_trim_fixed(line);
    let k: int = d.len() as int + 1;
    assert forall|j: int| 0 <= j < k implies line[j] != ' ' by {
        if j > 0 {
            assert(line[j] == d[j - 1]);
            assert(is_digit(d[j - 1]));
        }
    }
    assert(line[k] == ' ');
    lemma_count_before(line, ' ', k);
    let head = line.take(k);
    assert(head =~= seq!['#'] + d);
    assert(head.drop_first() =~= d);
    assert(is_digit(d[0]));
    assert(strip_hashes(d) == d);
    assert(strip_hashes(head) == d);
    law_decimal_reads_back(id);
    assert(line.skip(k + 1) =~= name);
}

/// The `#<id> <name>` lines of mascots with clean names hold no line feed.
proof fn lemma_listing_lines_unbroken(ms: Seq<(u32, Seq<char>)>)
    requires
        forall|i: int| 0 <= i < ms.len() ==> is_clean_name(#[trigger] ms[i].1),
    ensures
        forall|i: int, j: int|
            0 <= i < ms.len() && 0 <= j < listing_line(ms[i]).len() ==> listing_line(ms[i])[j]
                != '\n',
{
    assert forall|i: int, j: int|
        0 <= i < ms.len() && 0 <= j < listing_line(ms[i]).len() implies listing_line(ms[i])[j]
        != '\n' by {
        let (id, name) = ms[i];
        let line = listing_line(ms[i]);
        let d = decimal_chars(id as nat);
        assert(is_clean_name(ms[i].1));
        lemma_decimal_digits(id as nat);
        if 1 <= j < 1 + d.len() {
            assert(line[j] == d[j - 1]);
            assert(is_digit(d[j - 1]));
        } else if j > 1 + d.len() {
            assert(line[j] == name[j - 2 - d.len()]);
        }
    }
}

proof fn lemma_mascots_in_lines(ms: Seq<(u32, Seq<char>)>)
    requires
        forall|i: int| 0 <= i < ms.len() ==> is_clean_name(#[trigger] ms[i].1),
    ensures
        mascots_in(ms.map_values(|m: (u32, Seq<char>)| listing_line(m))) == ms,
    decreases ms.len(),
{
    let lines = ms.map_values(|m: (u32, Seq<char>)| listing_line(m));
    if ms.len() > 0 {
        let rest = ms.drop_first();
        assert(lines.drop_first() =~= rest.map_values(|m: (u32, Seq<char>)| listing_line(m)));
        assert forall|i: int| 0 <= i < rest.len() implies is_clean_name(#[trigger] rest[i].1) by {
            assert(rest[i] == ms[i + 1]);
        }
        lemma_mascots_in_lines(rest);
        assert(is_clean_name(ms[0].1));
        law_active_line_reads_back(ms[0]);
        assert(seq![ms[0]] + rest =~= ms);
    } else {
        assert(ms =~= Seq::<(u32, Seq<char>)>::empty());
    }
}

/// A listing written one `#<id> <name>` line per mascot, the lines joined by
/// line feeds, reads back as the same mascots in the same order, whenever
/// every name can be carried unchanged.
pub proof fn law_active_listing_reads_back(ms: Seq<(u32, Seq<char>)>)
    requires
        forall|i: int| 0 <= i < ms.len() ==> is_clean_name(#[trigger] ms[i].1),
    ensures
        active_mascots(joined(ms.map_values(|m: (u32, Seq<char>)| listing_line(m)), seq!['\n']))
            == ms,
{
    let lines = ms.map_values(|m: (u32, Seq<char>)| listing_line(m));
    if ms.len() == 0 {
        let e = Seq::<char>::empty();
        assert(joined(lines, seq!['\n']) == e);
        assert(split_lines(e) =~= seq![e]);
        assert(active_line(e) is None);
        assert(seq![e].drop_first() =~= Seq::<Seq<char>>::empty());
        assert(seq![e][0] == e);
        assert(mascots_in(Seq::<Seq<char>>::empty()) =~= Seq::<(u32, Seq<char>)>::empty());
        assert(mascots_in(seq![e]) =~= Seq::<(u32, Seq<char>)>::empty());
        assert(ms =~= Seq::<(u32, Seq<char>)>::empty());
    } else {
        lemma_listing_lines_unbroken(ms);
        lemma_split_joined_lines(lines);
        lemma_mascots_in_lines(ms);
    }
}

proof fn lemma_names_in_clean(names: Seq<Seq<char>>)
    requires
        forall|i: int| 0 <= i < names.len() ==> is_clean_name(#[trigger] names[i]),
    ensures
        names_in(names) == names,
    decreases names.len(),
{
    if names.len() > 0 {
        let rest = names.drop_first();
        assert forall|i: int| 0 <= i < rest.len() implies is_clean_name(#[trigger] rest[i]) by {
            assert(rest[i] == names[i + 1]);
        }
        lemma_names_in_clean(rest);
        assert(is_clean_name(names[0]));
        assert(seq![names[0]] + rest =~= names);
    }
}

/// Names written one per line, joined by line feeds, read back as the same
/// names in the same order, whenever every name can be carried unchanged.
pub proof fn law_prototype_listing_reads_back(names: Seq<Seq<char>>)
    requires
        forall|i: int| 0 <= i < names.len() ==> is_clean_name(#[trigger] names[i]),
    ensures
        prototype_names(joined(names, seq!['\n'])) == names,
{
    if names.len() == 0 {
        let e = Seq::<char>::empty();
        assert(joined(names, seq!['\n']) == e);
        assert(split_lines(e) =~= seq![e]);
        assert(trim(e) =~= e);
        assert(seq![e].drop_first() =~= Seq::<Seq<char>>::empty());
        assert(seq![e][0] == e);
        assert(names_in(Seq::<Seq<char>>::empty()) =~= Seq::<Seq<char>>::empty());
        assert(names_in(seq![e]) =~= Seq::<Seq<char>>::empty());
        assert(names =~= Seq::<Seq<char>>::empty());
    } else {
        assert forall|i: int, j: int|
            0 <= i < names.len() && 0 <= j < names[i].len() implies names[i][j] != '\n' by {
            assert(is_clean_name(names[i]));
        }
        lemma_split_joined_lines(names);
        lemma_names_in_clean(names);
    }
}


/// The trim of a piece without line feeds is a name that a listing can carry
/// unchanged, unless it is empty.
proof fn lemma_trimmed_piece_clean(piece: Seq<char>)
    requires
        forall|j: int| 0 <= j < piece.len() ==> piece[j] != '\n',
        trim(piece).len() > 0,
    ensures
        is_clean_name(trim(piece)),
{
    lemma_trim_shape(piece);
    let (a, b) = choose|a: int, b: int|
        0 <= a <= b <= piece.len() && trim(piece) == piece.subrange(a, b);
    assert forall|j: int| 0 <= j < trim(piece).len() implies trim(piece)[j] != '\n' by {
        assert(trim(piece)[j] == piece[a + j]);
    }
}

proof fn lemma_names_in_are_clean(pieces: Seq<Seq<char>>)
    requires
        forall|i: int, j: int|
            0 <= i < pieces.len() && 0 <= j < pieces[i].len() ==> pieces[i][j] != '\n',
    ensures
        forall|i: int| 0 <= i < names_in(pieces).len() ==> is_clean_name(#[trigger] names_in(pieces)[i]),
    decreases pieces.len(),
{
    if pieces.len() > 0 {
        let rest = pieces.drop_first();
        assert forall|i: int, j: int|
            0 <= i < rest.len() && 0 <= j < rest[i].len() implies rest[i][j] != '\n' by {
            assert(rest[i] == pieces[i + 1]);
        }
        lemma_names_in_are_clean(rest);
        if trim(pieces[0]).len() > 0 {
            lemma_trimmed_piece_clean(pieces[0]);
            let names = names_in(pieces);
            assert forall|i: int| 0 <= i < names.len() implies is_clean_name(#[trigger] names[i]) by {
                if i > 0 {
                    assert(names[i] == names_in(rest)[i - 1]);
                }
            }
        } else {
            assert(names_in(pieces) == names_in(rest));
        }
    }
}

/// Every name read from a listing of prototypes is one that a listing can
/// carry unchanged: not empty, trimmed, without line feeds.
pub proof fn law_prototype_names_are_clean(text: Seq<char>)
    ensures
        forall|i: int|
            0 <= i < prototype_names(text).len() ==> is_clean_name(
                #[trigger] prototype_names(text)[i],
            ),
{
    lemma_split_lines_pieces(text);
    lemma_names_in_are_clean(split_lines(text));
}

/// Reading is stable: writing the prototype names read from a listing one
/// per line and reading that again gives the same names.
pub proof fn law_prototype_reading_is_stable(text: Seq<char>)
    ensures
        prototype_names(joined(prototype_names(text), seq!['\n'])) == prototype_names(text),
{
    law_prototype_names_are_clean(text);
    law_prototype_listing_reads_back(prototype_names(text));
}

/// The name of the mascot that a line without line feeds describes can be
/// carried unchanged by a listing.
proof fn lemma_active_line_name_clean(line: Seq<char>)
    requires
        forall|j: int| 0 <= j < line.len() ==> line[j] != '\n',
        active_line(line) is Some,
    ensures
        is_clean_name((active_line(line)->0).1),
{
    let t = trim(line);
    let k = count_before(t, ' ');
    lemma_trim_shape(line);
    let (a, b) = choose|a: int, b: int|
        0 <= a <= b <= line.len() && trim(line) == line.subrange(a, b);
    lemma_count_before_shape(t, ' ');
    assert(t.len() > 0);
    assert(is_white(t[k as int]));
    assert(k + 1 < t.len());
    let u = t.skip(k + 1 as int);
    assert(u.last() == t.last());
    lemma_trim_keeps_last(u);
    assert forall|j: int| 0 <= j < u.len() implies u[j] != '\n' by {
        assert(u[j] == line[a + k + 1 + j]);
    }
    lemma_trimmed_piece_clean(u);
}

proof fn lemma_mascots_in_are_clean(pieces: Seq<Seq<char>>)
    requires
        forall|i: int, j: int|
            0 <= i < pieces.len() && 0 <= j < pieces[i].len() ==> pieces[i][j] != '\n',
    ensures
        forall|i: int|
            0 <= i < mascots_in(pieces).len() ==> is_clean_name(#[trigger] mascots_in(pieces)[i].1),
    decreases pieces.len(),
{
    if pieces.len() > 0 {
        let rest = pieces.drop_first();
        assert forall|i: int, j: int|
            0 <= i < rest.len() && 0 <= j < rest[i].len() implies rest[i][j] != '\n' by {
            assert(rest[i] == pieces[i + 1]);
        }
        lemma_mascots_in_are_clean(rest);
        if active_line(pieces[0]) is Some {
            lemma_active_line_name_clean(pieces[0]);
            let ms = mascots_in(pieces);
            assert forall|i: int| 0 <= i < ms.len() implies is_clean_name(#[trigger] ms[i].1) by {
                if i > 0 {
                    assert(ms[i] == mascots_in(rest)[i - 1]);
                }
            }
        }
    }
}

/// Every mascot read from `shimejictl list` has a name that a listing can
/// carry unchanged: not empty, trimmed, without line feeds.
pub proof fn law_active_names_are_clean(text: Seq<char>)
    ensures
        forall|i: int|
            0 <= i < active_mascots(text).len() ==> is_clean_name(
                #[trigger] active_mascots(text)[i].1,
            ),
{
    lemma_split_lines_pieces(text);
    lemma_mascots_in_are_clean(split_lines(text));
}

/// Reading is stable: writing the mascots read from `shimejictl list` back as
/// `#<id> <name>` lines and reading that again gives the same mascots.
pub proof fn law_active_reading_is_stable(text: Seq<char>)
    ensures
        active_mascots(
            joined(
                active_mascots(text).map_values(|m: (u32, Seq<char>)| listing_line(m)),
                seq!['\n'],
            ),
        ) == active_mascots(text),
{
    law_active_names_are_clean(text);
    law_active_listing_reads_back(active_mascots(text));
}


/// A blank piece at the end adds no name.
proof fn lemma_names_in_blank_end(pieces: Seq<Seq<char>>)
    ensures
        names_in(pieces.push(Seq::<char>::empty())) == names_in(pieces),
    decreases pieces.len(),
{
    let e = Seq::<char>::empty();
    assert(trim(e) =~= e);
    if pieces.len() == 0 {
        assert(pieces.push(e) =~= seq![e]);
        assert(seq![e].drop_first() =~= Seq::<Seq<char>>::empty());
        assert(names_in(Seq::<Seq<char>>::empty()) =~= Seq::<Seq<char>>::empty());
        assert(names_in(pieces) =~= Seq::<Seq<char>>::empty());
    } else {
        assert(pieces.push(e).drop_first() =~= pieces.drop_first().push(e));
        assert(pieces.push(e)[0] == pieces[0]);
        lemma_names_in_blank_end(pieces.drop_first());
    }
}

/// A blank piece at the end describes no mascot.
proof fn lemma_mascots_in_blank_end(pieces: Seq<Seq<char>>)
    ensures
        mascots_in(pieces.push(Seq::<char>::empty())) == mascots_in(pieces),
    decreases pieces.len(),
{
    let e = Seq::<char>::empty();
    assert(trim(e) =~= e);
    assert(active_line(e) is None);
    if pieces.len() == 0 {
        assert(pieces.push(e) =~= seq![e]);
        assert(seq![e].drop_first() =~= Seq::<Seq<char>>::empty());
        assert(mascots_in(Seq::<Seq<char>>::empty()) =~= Seq::<(u32, Seq<char>)>::empty());
        assert(mascots_in(pieces) =~= Seq::<(u32, Seq<char>)>::empty());
    } else {
        assert(pieces.push(e).drop_first() =~= pieces.drop_first().push(e));
        assert(pieces.push(e)[0] == pieces[0]);
        lemma_mascots_in_blank_end(pieces.drop_first());
    }
}

/// Splitting lines that each end with a line feed gives the lines back and
/// an empty piece after the last feed, when none of them holds a line feed.
proof fn lemma_split_terminated_lines(lines: Seq<Seq<char>>)
    requires
        lines.len() > 0,
        forall|i: int, j: int|
            0 <= i < lines.len() && 0 <= j < lines[i].len() ==> lines[i][j] != '\n',
    ensures
        split_lines(joined(lines, seq!['\n']) + seq!['\n']) == lines.push(Seq::<char>::empty()),
{
    let e = Seq::<char>::empty();
    let more = lines.push(e);
    lemma_joined_push(lines, seq!['\n'], e);
    assert(joined(lines, seq!['\n']) + seq!['\n'] + e =~= joined(lines, seq!['\n']) + seq!['\n']);
    assert forall|i: int, j: int|
        0 <= i < more.len() && 0 <= j < more[i].len() implies more[i][j] != '\n' by {
        assert(more[i] == lines[i]);
    }
    lemma_split_joined_lines(more);
}

/// Names written one per line, each line ended by a line feed as
/// `shimejictl` writes them, read back as the same names in the same order,
/// whenever every name can be carried unchanged.
pub proof fn law_prototype_listing_with_final_feed_reads_back(names: Seq<Seq<char>>)
    requires
        forall|i: int| 0 <= i < names.len() ==> is_clean_name(#[trigger] names[i]),
    ensures
        prototype_names(joined(names, seq!['\n']) + seq!['\n']) == names,
{
    let e = Seq::<char>::empty();
    if names.len() == 0 {
        let text = joined(names, seq!['\n']) + seq!['\n'];
        assert(text =~= seq!['\n']);
        lemma_count_before(text, '\n', 0);
        assert(text.take(0) =~= e);
        assert(text.skip(1) =~= e);
        assert(split_lines(e) =~= seq![e]);
        assert(split_lines(text) =~= seq![e, e]);
        lemma_names_in_blank_end(seq![e]);
        assert(seq![e].push(e) =~= seq![e, e]);
        assert(trim(e) =~= e);
        assert(seq![e].drop_first() =~= Seq::<Seq<char>>::empty());
        assert(names_in(Seq::<Seq<char>>::empty()) =~= Seq::<Seq<char>>::empty());
        assert(names =~= Seq::<Seq<char>>::empty());
    } else {
        assert forall|i: int, j: int|
            0 <= i < names.len() && 0 <= j < names[i].len() implies names[i][j] != '\n' by {
            assert(is_clean_name(names[i]));
        }
        lemma_split_terminated_lines(names);
        lemma_names_in_blank_end(names);
        lemma_names_in_clean(names);
    }
}

/// A listing written one `#<id> <name>` line per mascot, each line ended by a
/// line feed as `shimejictl` writes them, reads back as the same mascots in
/// the same order, whenever every name can be carried unchanged.
pub proof fn law_active_listing_with_final_feed_reads_back(ms: Seq<(u32, Seq<char>)>)
    requires
        forall|i: int| 0 <= i < ms.len() ==> is_clean_name(#[trigger] ms[i].1),
    ensures
        active_mascots(
            joined(ms.map_values(|m: (u32, Seq<char>)| listing_line(m)), seq!['\n']) + seq!['\n'],
        ) == ms,
{
    let e = Seq::<char>::empty();
    let lines = ms.map_values(|m: (u32, Seq<char>)| listing_line(m));
    if ms.len() == 0 {
        let text = joined(lines, seq!['\n']) + seq!['\n'];
        assert(text =~= seq!['\n']);
        lemma_count_before(text, '\n', 0);
        assert(text.take(0) =~= e);
        assert(text.skip(1) =~= e);
        assert(split_lines(e) =~= seq![e]);
        assert(split_lines(text) =~= seq![e, e]);
        lemma_mascots_in_blank_end(seq![e]);
        assert(seq![e].push(e) =~= seq![e, e]);
        assert(trim(e) =~= e);
        assert(active_line(e) is None);
        assert(seq![e].drop_first() =~= Seq::<Seq<char>>::empty());
        assert(mascots_in(Seq::<Seq<char>>::empty()) =~= Seq::<(u32, Seq<char>)>::empty());
        assert(ms =~= Seq::<(u32, Seq<char>)>::empty());
    } else {
        lemma_listing_lines_unbroken(ms);
        lemma_split_terminated_lines(lines);
        lemma_mascots_in_blank_end(lines);
        lemma_mascots_in_lines(ms);
    }
}

} // verus!
