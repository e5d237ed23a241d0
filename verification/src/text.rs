//! Trimming, splitting and joining of text.

use vstd::prelude::*;

verus! {

/// Appends one character to a string (`String::push`).
pub assume_specification[ String::push ](s: &mut String, c: char)
    ensures
        final(s)@ == old(s)@.push(c),
;

/// The text that `String::from_utf8_lossy` reads in `bytes`.
pub uninterp spec fn utf8_lossy(bytes: Seq<u8>) -> Seq<char>;

/// `String::from_utf8_lossy`. On valid UTF-8 it is the text that the bytes
/// encode; elsewhere replacement characters stand for what is not valid.
#[verifier::external_body]
pub(crate) fn from_utf8_lossy(bytes: &[u8]) -> (s: String)
    ensures
        s@ == utf8_lossy(bytes@),
        vstd::utf8::valid_utf8(bytes@) ==> s@ == vstd::utf8::decode_utf8(bytes@),
{
    String::from_utf8_lossy(bytes).into_owned()
}

/// The text in `bytes`: what they encode where they are valid UTF-8, and else
/// what is left of them with replacement characters.
pub open spec fn text_in(bytes: Seq<u8>) -> Seq<char> {
    if vstd::utf8::valid_utf8(bytes) {
        vstd::utf8::decode_utf8(bytes)
    } else {
        utf8_lossy(bytes)
    }
}

/// The characters of Unicode's `White_Space` property.
pub open spec fn is_white_space(c: char) -> bool {
    let u = c as u32;
    ||| 0x09 <= u <= 0x0d
    ||| u == 0x20
    ||| u == 0x85
    ||| u == 0xa0
    ||| u == 0x1680
    ||| 0x2000 <= u <= 0x200a
    ||| u == 0x2028
    ||| u == 0x2029
    ||| u == 0x202f
    ||| u == 0x205f
    ||| u == 0x3000
}

/// `s` without its leading white space.
pub open spec fn trimmed_start(s: Seq<char>) -> Seq<char>
    decreases s.len(),
{
    if s.len() > 0 && is_white_space(s[0]) {
        trimmed_start(s.drop_first())
    } else {
        s
    }
}

/// `s` without its trailing white space.
pub open spec fn trimmed_end(s: Seq<char>) -> Seq<char>
    decreases s.len(),
{
    if s.len() > 0 && is_white_space(s.last()) {
        trimmed_end(s.drop_last())
    } else {
        s
    }
}

/// `s` without white space at either end.
pub open spec fn trimmed(s: Seq<char>) -> Seq<char> {
    trimmed_end(trimmed_start(s))
}

proof fn lemma_trimmed_start_front(s: Seq<char>)
    ensures
        trimmed_start(s).len() > 0 ==> !is_white_space(trimmed_start(s)[0]),
    decreases s.len(),
{
    if s.len() > 0 && is_white_space(s[0]) {
        lemma_trimmed_start_front(s.drop_first());
    }
}

proof fn lemma_trimmed_end_ends(s: Seq<char>)
    ensures
        trimmed_end(s).len() <= s.len(),
        trimmed_end(s).len() > 0 ==> !is_white_space(trimmed_end(s).last()),
        trimmed_end(s).len() > 0 ==> trimmed_end(s)[0] == s[0],
    decreases s.len(),
{
    if s.len() > 0 && is_white_space(s.last()) {
        lemma_trimmed_end_ends(s.drop_last());
    }
}

/// Trimming twice is trimming once.
pub proof fn law_trim_once(s: Seq<char>)
    ensures
        trimmed(trimmed(s)) == trimmed(s),
{
    lemma_trimmed_start_front(s);
    lemma_trimmed_end_ends(trimmed_start(s));
}

/// The pieces of `s` between the occurrences of `sep`, empty ones included.
pub open spec fn pieces(s: Seq<char>, sep: char) -> Seq<Seq<char>>
    decreases s.len(),
{
    if s.len() == 0 {
        seq![Seq::<char>::empty()]
    } else {
        let before = pieces(s.drop_last(), sep);
        if s.last() == sep {
            before.push(Seq::<char>::empty())
        } else {
            before.update(before.len() - 1, before.last().push(s.last()))
        }
    }
}

/// `parts` in order, with `sep` between neighbours.
pub open spec fn joined(parts: Seq<Seq<char>>, sep: char) -> Seq<char>
    decreases parts.len(),
{
    if parts.len() == 0 {
        Seq::empty()
    } else if parts.len() == 1 {
        parts[0]
    } else {
        joined(parts.drop_last(), sep).push(sep) + parts.last()
    }
}

/// The texts that a vector of strings holds.
pub open spec fn texts(v: Seq<String>) -> Seq<Seq<char>> {
    v.map_values(|s: String| s@)
}

/// Every text has a piece.
pub proof fn lemma_pieces_nonempty(s: Seq<char>, sep: char)
    ensures
        pieces(s, sep).len() > 0,
    decreases s.len(),
{
    if s.len() > 0 {
        lemma_pieces_nonempty(s.drop_last(), sep);
    }
}

/// A longer last part of a join makes the text longer.
pub proof fn lemma_joined_extend_last(parts: Seq<Seq<char>>, c: char, sep: char)
    requires
        parts.len() > 0,
    ensures
        joined(parts.update(parts.len() - 1, parts.last().push(c)), sep) == joined(
            parts,
            sep,
        ).push(c),
{
    let longer = parts.update(parts.len() - 1, parts.last().push(c));
    if parts.len() > 1 {
        assert(longer.drop_last() =~= parts.drop_last());
        assert(longer.last() =~= parts.last().push(c));
    }
    assert(joined(longer, sep) =~= joined(parts, sep).push(c));
}

/// Filling the empty last part of a join appends to the text.
pub proof fn lemma_joined_fill_last(parts: Seq<Seq<char>>, last: Seq<char>, sep: char)
    ensures
        joined(parts.push(last), sep) == joined(parts.push(Seq::empty()), sep) + last,
{
    let empty: Seq<char> = Seq::empty();
    if parts.len() > 0 {
        assert(parts.push(last).drop_last() =~= parts);
        assert(parts.push(empty).drop_last() =~= parts);
    }
    assert(joined(parts.push(last), sep) =~= joined(parts.push(empty), sep) + last);
}

/// Joining the pieces of a text gives the text back.
pub proof fn law_join_undoes_split(s: Seq<char>, sep: char)
    ensures
        joined(pieces(s, sep), sep) == s,
    decreases s.len(),
{
    if s.len() > 0 {
        let before = pieces(s.drop_last(), sep);
        law_join_undoes_split(s.drop_last(), sep);
        lemma_pieces_nonempty(s.drop_last(), sep);
        assert(s =~= s.drop_last().push(s.last()));
        if s.last() == sep {
            assert(pieces(s, sep).drop_last() =~= before);
            assert(joined(pieces(s, sep), sep) =~= s);
        } else {
            lemma_joined_extend_last(before, s.last(), sep);
        }
    } else {
        assert(joined(pieces(s, sep), sep) =~= s);
    }
}

proof fn lemma_pieces_of_one(s: Seq<char>, sep: char)
    requires
        !s.contains(sep),
    ensures
        pieces(s, sep) == seq![s],
    decreases s.len(),
{
    if s.len() > 0 {
        let front = s.drop_last();
        assert forall|k: int| 0 <= k < front.len() implies front[k] != sep by {
            assert(front[k] == s[k]);
        }
        lemma_pieces_of_one(front, sep);
        assert(s.last() == s[s.len() - 1]);
        assert(front.push(s.last()) =~= s);
        assert(pieces(s, sep) =~= seq![s]);
    } else {
        assert(s =~= Seq::<char>::empty());
    }
}

proof fn lemma_pieces_push(a: Seq<char>, b: Seq<char>, sep: char)
    requires
        !b.contains(sep),
    ensures
        pieces(a.push(sep) + b, sep) == pieces(a, sep).push(b),
    decreases b.len(),
{
    let s = a.push(sep) + b;
    if b.len() == 0 {
        assert(s =~= a.push(sep));
        assert(s.drop_last() =~= a);
        assert(b =~= Seq::<char>::empty());
    } else {
        let front = b.drop_last();
        assert forall|k: int| 0 <= k < front.len() implies front[k] != sep by {
            assert(front[k] == b[k]);
        }
        lemma_pieces_push(a, front, sep);
        assert(s.drop_last() =~= a.push(sep) + front);
        assert(s.last() == b[b.len() - 1]);
        assert(front.push(b.last()) =~= b);
        assert(pieces(s, sep) =~= pieces(a, sep).push(b));
    }
}

/// Splitting what was joined gives the parts back, where there is a part and
/// none of them holds the separator.
pub proof fn law_split_undoes_join(parts: Seq<Seq<char>>, sep: char)
    requires
        parts.len() > 0,
        forall|i: int| 0 <= i < parts.len() ==> !(#[trigger] parts[i]).contains(sep),
    ensures
        pieces(joined(parts, sep), sep) == parts,
    decreases parts.len(),
{
    if parts.len() == 1 {
        lemma_pieces_of_one(parts[0], sep);
        assert(parts =~= seq![parts[0]]);
    } else {
        let front = parts.drop_last();
        assert forall|i: int| 0 <= i < front.len() implies !(#[trigger] front[i]).contains(
            sep,
        ) by {
            assert(front[i] == parts[i]);
        }
        law_split_undoes_join(front, sep);
        assert(parts.last() == parts[parts.len() - 1]);
        lemma_pieces_push(joined(front, sep), parts.last(), sep);
        assert(front.push(parts.last()) =~= parts);
    }
}

/// No piece of a text holds the separator.
pub proof fn law_pieces_free_of_separator(s: Seq<char>, sep: char)
    ensures
        forall|i: int|
            #![trigger pieces(s, sep)[i]]
            0 <= i < pieces(s, sep).len() ==> !pieces(s, sep)[i].contains(sep),
    decreases s.len(),
{
    if s.len() > 0 {
        let before = pieces(s.drop_last(), sep);
        law_pieces_free_of_separator(s.drop_last(), sep);
        lemma_pieces_nonempty(s.drop_last(), sep);
        assert forall|i: int| #![trigger pieces(s, sep)[i]] 0 <= i < pieces(s, sep).len() implies
            !pieces(s, sep)[i].contains(sep) by {
            if i < before.len() {
                assert(!before[i].contains(sep));
                let p = pieces(s, sep)[i];
                if p.contains(sep) {
                    let k = choose|k: int| 0 <= k < p.len() && p[k] == sep;
                    assert(before[i][k] == sep);
                }
            }
        }
    }
}

/// The pieces of two texts with a separator between them are the pieces of the
/// one and then the pieces of the other.
pub proof fn lemma_pieces_around(a: Seq<char>, b: Seq<char>, sep: char)
    ensures
        pieces(a.push(sep) + b, sep) == pieces(a, sep) + pieces(b, sep),
    decreases b.len(),
{
    let s = a.push(sep) + b;
    lemma_pieces_nonempty(b, sep);
    if b.len() == 0 {
        assert(s =~= a.push(sep));
        assert(s.drop_last() =~= a);
        assert(pieces(s, sep) =~= pieces(a, sep) + pieces(b, sep));
    } else {
        lemma_pieces_around(a, b.drop_last(), sep);
        lemma_pieces_nonempty(b.drop_last(), sep);
        assert(s.drop_last() =~= a.push(sep) + b.drop_last());
        assert(s.last() == b.last());
        assert(pieces(s, sep) =~= pieces(a, sep) + pieces(b, sep));
    }
}

/// Each piece stands in the text between two neighbouring separators or ends.
pub proof fn lemma_piece_place(s: Seq<char>, sep: char, i: int) -> (place: (int, int))
    requires
        0 <= i < pieces(s, sep).len(),
    ensures
        0 <= place.0 <= place.1 <= s.len(),
        place.0 == 0 || s[place.0 - 1] == sep,
        place.1 == s.len() || s[place.1] == sep,
        pieces(s, sep)[i] == s.subrange(place.0, place.1),
        i == pieces(s, sep).len() - 1 <==> place.1 == s.len(),
    decreases s.len(),
{
    if s.len() == 0 {
        assert(pieces(s, sep)[0] =~= s.subrange(0, 0));
        (0, 0)
    } else {
        let front = s.drop_last();
        let before = pieces(front, sep);
        lemma_pieces_nonempty(front, sep);
        if s.last() == sep {
            if i == before.len() {
                let n = s.len() as int;
                assert(s[n - 1] == sep);
                assert(pieces(s, sep)[i] =~= s.subrange(n, n));
                (n, n)
            } else {
                let p = lemma_piece_place(front, sep, i);
                assert(pieces(s, sep)[i] =~= s.subrange(p.0, p.1));
                p
            }
        } else {
            let p = lemma_piece_place(front, sep, i);
            if i == before.len() - 1 {
                assert(pieces(s, sep)[i] =~= s.subrange(p.0, s.len() as int));
                (p.0, s.len() as int)
            } else {
                assert(pieces(s, sep)[i] =~= s.subrange(p.0, p.1));
                p
            }
        }
    }
}

/// What stands in the text between two neighbouring separators or ends is one
/// of its pieces.
pub proof fn lemma_place_piece(s: Seq<char>, sep: char, from: int, to: int) -> (i: int)
    requires
        0 <= from <= to <= s.len(),
        from == 0 || s[from - 1] == sep,
        to == s.len() || s[to] == sep,
        !s.subrange(from, to).contains(sep),
    ensures
        0 <= i < pieces(s, sep).len(),
        pieces(s, sep)[i] == s.subrange(from, to),
{
    let middle = s.subrange(from, to);
    lemma_pieces_of_one(middle, sep);
    let n = s.len() as int;
    let head = s.subrange(0, to);
    let i = if from == 0 {
        assert(head =~= middle);
        0
    } else {
        let a = s.subrange(0, from - 1);
        assert(head =~= a.push(sep) + middle);
        lemma_pieces_around(a, middle, sep);
        pieces(a, sep).len() as int
    };
    assert(pieces(head, sep)[i] == middle);
    if to < n {
        let b = s.subrange(to + 1, n);
        assert(s =~= head.push(sep) + b);
        lemma_pieces_around(head, b, sep);
    } else {
        assert(s =~= head);
    }
    i
}

/// Trimming takes white space off the ends and nothing else: what is left is a
/// run of the text that neither starts nor ends with white space, and all that
/// was around it is white space.
pub proof fn law_trim_takes_white_space_alone(s: Seq<char>) -> (place: (int, int))
    ensures
        0 <= place.0 <= place.1 <= s.len(),
        trimmed(s) == s.subrange(place.0, place.1),
        forall|k: int| 0 <= k < place.0 ==> is_white_space(#[trigger] s[k]),
        forall|k: int| place.1 <= k < s.len() ==> is_white_space(#[trigger] s[k]),
        place.0 < place.1 ==> !is_white_space(s[place.0]) && !is_white_space(s[place.1 - 1]),
{
    let from = lemma_trimmed_start_place(s);
    let front = trimmed_start(s);
    let n = lemma_trimmed_end_place(front);
    lemma_trimmed_start_front(s);
    lemma_trimmed_end_ends(front);
    assert(trimmed(s) =~= s.subrange(from, from + n));
    assert forall|k: int| from + n <= k < s.len() implies is_white_space(#[trigger] s[k]) by {
        assert(front[k - from] == s[k]);
    }
    (from, from + n)
}

proof fn lemma_trimmed_start_place(s: Seq<char>) -> (from: int)
    ensures
        0 <= from <= s.len(),
        trimmed_start(s) == s.subrange(from, s.len() as int),
        forall|k: int| 0 <= k < from ==> is_white_space(#[trigger] s[k]),
    decreases s.len(),
{
    if s.len() > 0 && is_white_space(s[0]) {
        let rest = s.drop_first();
        let from = lemma_trimmed_start_place(rest);
        assert(trimmed_start(s) =~= s.subrange(from + 1, s.len() as int));
        assert forall|k: int| 0 <= k < from + 1 implies is_white_space(#[trigger] s[k]) by {
            if k > 0 {
                assert(rest[k - 1] == s[k]);
            }
        }
        from + 1
    } else {
        assert(s =~= s.subrange(0, s.len() as int));
        0
    }
}

proof fn lemma_trimmed_end_place(s: Seq<char>) -> (to: int)
    ensures
        0 <= to <= s.len(),
        trimmed_end(s) == s.subrange(0, to),
        forall|k: int| to <= k < s.len() ==> is_white_space(#[trigger] s[k]),
    decreases s.len(),
{
    if s.len() > 0 && is_white_space(s.last()) {
        let rest = s.drop_last();
        let to = lemma_trimmed_end_place(rest);
        assert(trimmed_end(s) =~= s.subrange(0, to));
        assert forall|k: int| to <= k < s.len() implies is_white_space(#[trigger] s[k]) by {
            if k < rest.len() {
                assert(rest[k] == s[k]);
            }
        }
        to
    } else {
        assert(s =~= s.subrange(0, s.len() as int));
        s.len() as int
    }
}

/// White space is tab, line feed, vertical tab, form feed, carriage return and
/// space, and in Unicode beyond ASCII the spaces and separators; no printable
/// ASCII character is.
pub proof fn law_white_space(c: char)
    ensures
        (c as u32) < 0x80 ==> (is_white_space(c) <==> c == ' ' || c == '\t' || c == '\n' || c
            == '\r' || c as u32 == 0x0b || c as u32 == 0x0c),
        c as u32 >= 0x80 ==> (is_white_space(c) <==> seq![
            0x85u32,
            0xa0,
            0x1680,
            0x2000,
            0x2001,
            0x2002,
            0x2003,
            0x2004,
            0x2005,
            0x2006,
            0x2007,
            0x2008,
            0x2009,
            0x200a,
            0x2028,
            0x2029,
            0x202f,
            0x205f,
            0x3000,
        ].contains(c as u32)),
{
    let u = c as u32;
    let beyond = seq![
        0x85u32,
        0xa0,
        0x1680,
        0x2000,
        0x2001,
        0x2002,
        0x2003,
        0x2004,
        0x2005,
        0x2006,
        0x2007,
        0x2008,
        0x2009,
        0x200a,
        0x2028,
        0x2029,
        0x202f,
        0x205f,
        0x3000,
    ];
    assert(beyond[0] == 0x85 && beyond[1] == 0xa0 && beyond[2] == 0x1680);
    assert(beyond[14] == 0x2028 && beyond[15] == 0x2029 && beyond[16] == 0x202f);
    assert(beyond[17] == 0x205f && beyond[18] == 0x3000);
    if 0x2000 <= u <= 0x200a {
        assert(beyond[3 + (u - 0x2000)] == u);
    }
}

/// Bytes that are text are read as that text, and others as the lossy decoding
/// reads them.
pub proof fn law_text_in(text: Seq<char>, bytes: Seq<u8>)
    ensures
        text_in(vstd::utf8::encode_utf8(text)) == text,
        !vstd::utf8::valid_utf8(bytes) ==> text_in(bytes) == utf8_lossy(bytes),
{
    vstd::utf8::encode_utf8_valid_utf8(text);
    vstd::utf8::encode_utf8_decode_utf8(text);
}

/// Whether `c` is white space.
pub fn is_white_space_char(c: char) -> (r: bool)
    ensures
        r == is_white_space(c),
{
    let u: u32 = c as u32;
    (0x09 <= u && u <= 0x0d) || u == 0x20 || u == 0x85 || u == 0xa0 || u == 0x1680 || (0x2000 <= u
        && u <= 0x200a) || u == 0x2028 || u == 0x2029 || u == 0x202f || u == 0x205f || u == 0x3000
}

/// The characters of `s`.
pub fn to_chars(s: &str) -> (v: Vec<char>)
    ensures
        v@ == s@,
{
    let mut v: Vec<char> = Vec::new();
    for c in it: s.chars()
        invariant
            v@ == s@.take(it.index() as int),
            it.seq() == s@,
    {
        proof {
            assert(s@.take(it.index() as int + 1) =~= s@.take(it.index() as int).push(
                s@[it.index() as int],
            ));
        }
        v.push(c);
    }
    assert(s@.take(s@.len() as int) =~= s@);
    v
}

/// The text made of `chars[from..to]`.
pub fn from_chars(chars: &Vec<char>, from: usize, to: usize) -> (s: String)
    requires
        from <= to <= chars@.len(),
    ensures
        s@ == chars@.subrange(from as int, to as int),
{
    let mut s = String::new();
    let mut i: usize = from;
    while i < to
        invariant
            from <= i <= to <= chars@.len(),
            s@ == chars@.subrange(from as int, i as int),
        decreases to - i,
    {
        s.push(chars[i]);
        assert(s@ =~= chars@.subrange(from as int, i + 1));
        i = i + 1;
    }
    s
}

/// `s` without white space at either end.
pub fn trim(s: &str) -> (t: String)
    ensures
        t@ == trimmed(s@),
{
    let chars = to_chars(s);
    let mut from: usize = 0;
    let n: usize = chars.len();
    assert(chars@.subrange(0, n as int) =~= chars@);
    while from < n && is_white_space_char(chars[from])
        invariant
            from <= n == chars@.len(),
            trimmed_start(chars@.subrange(from as int, n as int)) == trimmed_start(chars@),
        decreases n - from,
    {
        assert(chars@.subrange(from as int, n as int).drop_first() =~= chars@.subrange(
            from + 1,
            n as int,
        ));
        from = from + 1;
    }
    let ghost front = chars@.subrange(from as int, n as int);
    assert(front == trimmed_start(chars@));
    let mut to: usize = n;
    while from < to && is_white_space_char(chars[to - 1])
        invariant
            from <= to <= n == chars@.len(),
            trimmed_end(chars@.subrange(from as int, to as int)) == trimmed_end(front),
        decreases to - from,
    {
        assert(chars@.subrange(from as int, to as int).drop_last() =~= chars@.subrange(
            from as int,
            to - 1,
        ));
        to = to - 1;
    }
    from_chars(&chars, from, to)
}

/// The pieces of `s` between the occurrences of `sep`, empty ones included.
pub fn split(s: &str, sep: char) -> (parts: Vec<String>)
    ensures
        texts(parts@) == pieces(s@, sep),
{
    let chars = to_chars(s);
    let mut parts: Vec<String> = Vec::new();
    let mut start: usize = 0;
    let mut i: usize = 0;
    let ghost mut open: Seq<char> = Seq::empty();
    assert(texts(parts@).push(open) =~= pieces(s@.take(0), sep));
    while i < chars.len()
        invariant
            start <= i <= chars@.len(),
            chars@ == s@,
            open == chars@.subrange(start as int, i as int),
            texts(parts@).push(open) == pieces(s@.take(i as int), sep),
        decreases chars@.len() - i,
    {
        let ghost before = texts(parts@).push(open);
        assert(s@.take(i + 1).drop_last() =~= s@.take(i as int));
        assert(s@.take(i + 1).last() == s@[i as int]);
        if chars[i] == sep {
            let part = from_chars(&chars, start, i);
            parts.push(part);
            assert(texts(parts@) =~= before);
            start = i + 1;
            proof {
                open = Seq::empty();
            }
        } else {
            proof {
                open = open.push(s@[i as int]);
                assert(before.update(before.len() - 1, open) =~= texts(parts@).push(open));
            }
        }
        assert(open =~= chars@.subrange(start as int, i + 1));
        i = i + 1;
    }
    let part = from_chars(&chars, start, chars.len());
    let ghost before = texts(parts@);
    parts.push(part);
    assert(texts(parts@) =~= before.push(open));
    assert(s@.take(s@.len() as int) =~= s@);
    parts
}

/// `parts` in order, with `sep` between neighbours.
pub fn join(parts: &Vec<String>, sep: char) -> (s: String)
    ensures
        s@ == joined(texts(parts@), sep),
{
    let mut s = String::new();
    let mut i: usize = 0;
    let ghost all = texts(parts@);
    while i < parts.len()
        invariant
            i <= parts@.len(),
            all == texts(parts@),
            s@ == joined(all.take(i as int), sep),
        decreases parts@.len() - i,
    {
        assert(all.take(i + 1).drop_last() =~= all.take(i as int));
        if i > 0 {
            s.push(sep);
        }
        s.append(parts[i].as_str());
        assert(s@ =~= joined(all.take(i + 1), sep));
        i = i + 1;
    }
    assert(all.take(all.len() as int) =~= all);
    s
}

/// Whether two texts are the same.
pub fn same_text(a: &str, b: &str) -> (r: bool)
    ensures
        r == (a@ == b@),
{
    let x = to_chars(a);
    let y = to_chars(b);
    if x.len() != y.len() {
        return false;
    }
    let mut i: usize = 0;
    while i < x.len()
        invariant
            i <= x@.len() == y@.len(),
            x@ == a@,
            y@ == b@,
            forall|k: int| 0 <= k < i ==> x@[k] == y@[k],
        decreases x@.len() - i,
    {
        if x[i] != y[i] {
            return false;
        }
        i = i + 1;
    }
    assert(a@ =~= b@);
    true
}

} // verus!
