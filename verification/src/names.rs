//! Names: what an unpacked entry or file may be called.

use crate::text::{from_chars, join, same_text, split, to_chars};
use vstd::prelude::*;

verus! {

/// What stands for a character of a path on file systems with exFAT or Win32
/// rules: an underscore for what they do not take in a name.
pub open spec fn sanitized_char(c: char) -> char {
    if c == '<' || c == '>' || c == ':' || c == '"' || c == '|' || c == '?' || c == '*' || c == '\\'
        || (c as u32) < 0x20 {
        '_'
    } else {
        c
    }
}

/// A path component with each character replaced by what stands for it.
pub open spec fn sanitized(component: Seq<char>) -> Seq<char> {
    component.map_values(|c: char| sanitized_char(c))
}

/// The components of an entry's path, each sanitized.
pub open spec fn sanitized_components(path: Seq<char>) -> Seq<Seq<char>> {
    crate::text::pieces(path, '/').map_values(|p: Seq<char>| sanitized(p))
}

/// Whether a component is one of the special directory entries.
pub open spec fn is_dots(component: Seq<char>) -> bool {
    component == seq!['.'] || component == seq!['.', '.']
}

/// Whether some component of an entry's path, once sanitized, is special.
pub open spec fn has_dots_component(path: Seq<char>) -> bool {
    exists|i: int|
        0 <= i < sanitized_components(path).len() && is_dots(
            #[trigger] sanitized_components(path)[i],
        )
}

/// The name for what has no usable name of its own.
pub open spec fn fallback_name() -> Seq<char> {
    "decrypted_output"@
}

/// Whether two dots follow each other somewhere in `s`.
pub open spec fn has_two_dots(s: Seq<char>) -> bool {
    exists|i: int| 0 <= i < s.len() - 1 && #[trigger] s[i] == '.' && s[i + 1] == '.'
}

/// How a file name is judged.
#[derive(Debug, Clone, Copy, PartialEq, Eq, Structural)]
pub enum NameVerdict {
    /// There is no name.
    Empty,
    /// The name holds two dots in a row, a slash, a backslash or a NUL.
    Unsafe,
    /// The name is a special directory entry.
    Special,
    /// The name can be used.
    Fine,
}

/// How the file name `name` is judged.
pub open spec fn verdict(name: Seq<char>) -> NameVerdict {
    if name.len() == 0 {
        NameVerdict::Empty
    } else if has_two_dots(name) || name.contains('/') || name.contains('\\') || name.contains(
        '\0',
    ) {
        NameVerdict::Unsafe
    } else if is_dots(name) {
        NameVerdict::Special
    } else {
        NameVerdict::Fine
    }
}

/// `name` where it can be used, and else the fallback.
pub open spec fn safe_name(name: Seq<char>) -> Seq<char> {
    if verdict(name) == NameVerdict::Fine {
        name
    } else {
        fallback_name()
    }
}

/// Sanitizing twice is sanitizing once; no character is lost, and none of the
/// forbidden characters is left. Each of them becomes an underscore, and every
/// other character stays as it is.
pub proof fn law_sanitize_component(component: Seq<char>)
    ensures
        sanitized(sanitized(component)) == sanitized(component),
        sanitized(component).len() == component.len(),
        forall|i: int|
            0 <= i < component.len() ==> ({
                let c = #[trigger] sanitized(component)[i];
                c != '<' && c != '>' && c != ':' && c != '"' && c != '|' && c != '?' && c != '*'
                    && c != '\\' && c as u32 >= 0x20
            }),
        forall|i: int|
            0 <= i < component.len() ==> ({
                let c = #[trigger] component[i];
                &&& (c == '<' || c == '>' || c == ':' || c == '"' || c == '|' || c == '?' || c
                    == '*' || c == '\\' || (c as u32) < 0x20) ==> sanitized(component)[i] == '_'
                &&& (c != '<' && c != '>' && c != ':' && c != '"' && c != '|' && c != '?' && c
                    != '*' && c != '\\' && c as u32 >= 0x20) ==> sanitized(component)[i] == c
            }),
{
    assert(sanitized(sanitized(component)) =~= sanitized(component));
}

/// The path that an entry goes to is its own path with each character replaced
/// by what stands for it. It is absolute only where the entry's own path is.
pub proof fn law_entry_path(path: Seq<char>)
    ensures
        crate::text::joined(sanitized_components(path), '/') == sanitized(path),
        sanitized(path).len() == path.len(),
        path.len() > 0 ==> (sanitized(path)[0] == '/' <==> path[0] == '/'),
    decreases path.len(),
{
    let whole = crate::text::joined(sanitized_components(path), '/');
    if path.len() == 0 {
        assert(whole =~= sanitized(path));
    } else {
        let front = path.drop_last();
        let last = path.last();
        law_entry_path(front);
        crate::text::lemma_pieces_nonempty(front, '/');
        let before = sanitized_components(front);
        let parts = sanitized_components(path);
        if last == '/' {
            assert(parts =~= before.push(Seq::empty())) by {
                assert(sanitized(Seq::empty()) =~= Seq::empty());
            }
            assert(parts.drop_last() =~= before);
        } else {
            let longer = before.update(
                before.len() - 1,
                before.last().push(sanitized_char(last)),
            );
            assert(parts =~= longer) by {
                let raw = crate::text::pieces(front, '/').last();
                assert(sanitized(raw.push(last)) =~= sanitized(raw).push(sanitized_char(last)));
            }
            crate::text::lemma_joined_extend_last(before, sanitized_char(last), '/');
        }
        assert(whole =~= sanitized(path));
    }
}

/// An entry that is not left out has no component `.` or `..` in the path it
/// goes to.
pub proof fn law_kept_entry_has_no_dots(path: Seq<char>)
    requires
        !has_dots_component(path),
    ensures
        forall|i: int|
            0 <= i < crate::text::pieces(
                crate::text::joined(sanitized_components(path), '/'),
                '/',
            ).len() ==> !is_dots(
                #[trigger] crate::text::pieces(
                    crate::text::joined(sanitized_components(path), '/'),
                    '/',
                )[i],
            ),
{
    let raw = crate::text::pieces(path, '/');
    let parts = sanitized_components(path);
    crate::text::law_pieces_free_of_separator(path, '/');
    crate::text::lemma_pieces_nonempty(path, '/');
    assert forall|i: int| 0 <= i < parts.len() implies !(#[trigger] parts[i]).contains('/') by {
        if parts[i].contains('/') {
            let k = choose|k: int| 0 <= k < parts[i].len() && parts[i][k] == '/';
            assert(!raw[i].contains('/'));
            assert(raw[i][k] != '/');
        }
    }
    crate::text::law_split_undoes_join(parts, '/');
}

/// A part of a path between its start, its end and the slashes of it, which is
/// `.` or `..`.
pub open spec fn is_dots_part(path: Seq<char>, from: int, to: int) -> bool {
    &&& 0 <= from <= to <= path.len()
    &&& from == 0 || path[from - 1] == '/'
    &&& to == path.len() || path[to] == '/'
    &&& (to == from + 1 && path[from] == '.') || (to == from + 2 && path[from] == '.' && path[from
        + 1] == '.')
}

/// An entry is left out exactly where `.` or `..` stands somewhere in its path
/// between two slashes, or between a slash and an end, or alone.
pub proof fn law_left_out_for_dots_alone(path: Seq<char>)
    ensures
        has_dots_component(path) <==> exists|from: int, to: int| #[trigger]
            is_dots_part(path, from, to),
{
    let raw = crate::text::pieces(path, '/');
    let parts = sanitized_components(path);
    if has_dots_component(path) {
        let i = choose|i: int| 0 <= i < parts.len() && is_dots(#[trigger] parts[i]);
        let (from, to) = crate::text::lemma_piece_place(path, '/', i);
        let piece = path.subrange(from, to);
        assert(parts[i] == sanitized(piece));
        assert(sanitized(piece).len() == piece.len());
        if parts[i] == seq!['.'] {
            assert(sanitized(piece)[0] == '.');
            assert(sanitized_char(piece[0]) == '.');
        } else {
            assert(sanitized(piece)[0] == '.' && sanitized(piece)[1] == '.');
            assert(sanitized_char(piece[0]) == '.' && sanitized_char(piece[1]) == '.');
        }
        assert(is_dots_part(path, from, to));
    }
    if exists|from: int, to: int| #[trigger] is_dots_part(path, from, to) {
        let (from, to) = choose|from: int, to: int| #[trigger] is_dots_part(path, from, to);
        let i = crate::text::lemma_place_piece(path, '/', from, to);
        let piece = path.subrange(from, to);
        assert(parts[i] == sanitized(piece));
        if to == from + 1 {
            assert(sanitized(piece) =~= seq!['.']);
        } else {
            assert(sanitized(piece) =~= seq!['.', '.']);
        }
        assert(is_dots(parts[i]));
    }
}

/// The fallback is a name that can be used.
proof fn lemma_fallback_is_fine()
    ensures
        verdict(fallback_name()) == NameVerdict::Fine,
{
    reveal_strlit("decrypted_output");
    let s = fallback_name();
    assert(s.len() == 16);
    assert forall|i: int| 0 <= i < s.len() implies s[i] != '.' && s[i] != '/' && s[i] != '\\'
        && s[i] != '\0' by {
        assert(s =~= seq![
            'd',
            'e',
            'c',
            'r',
            'y',
            'p',
            't',
            'e',
            'd',
            '_',
            'o',
            'u',
            't',
            'p',
            'u',
            't',
        ]);
    }
    if s == seq!['.'] {
        assert(s.len() == 1);
    }
    if s == seq!['.', '.'] {
        assert(s.len() == 2);
    }
}

/// Whatever name a container holds, the name that is used is not empty, holds
/// no separator, no NUL and no two dots in a row, and is no special directory
/// entry; a name that was made safe stays as it is.
pub proof fn law_safe_name(name: Seq<char>)
    ensures
        safe_name(name).len() > 0,
        !safe_name(name).contains('/'),
        !safe_name(name).contains('\\'),
        !safe_name(name).contains('\0'),
        !has_two_dots(safe_name(name)),
        !is_dots(safe_name(name)),
        safe_name(safe_name(name)) == safe_name(name),
{
    lemma_fallback_is_fine();
}

/// How a name is judged rests with nothing but its emptiness, its dots, its
/// slashes and backslashes, and its NULs; a name without any of that is used as
/// it is, and every other one gives way to `decrypted_output`.
pub proof fn law_fallback_only_where_it_must_be(name: Seq<char>)
    ensures
        name.len() > 0 && name != seq!['.'] && (forall|i: int|
            0 <= i < name.len() ==> #[trigger] name[i] != '/' && name[i] != '\\' && name[i]
                != '\0') && (forall|i: int|
            0 <= i < name.len() - 1 ==> !(#[trigger] name[i] == '.' && name[i + 1] == '.'))
            ==> verdict(name) == NameVerdict::Fine && safe_name(name) == name,
        name.len() == 0 ==> verdict(name) == NameVerdict::Empty,
        name == seq!['.'] ==> verdict(name) == NameVerdict::Special,
        (exists|i: int|
            0 <= i < name.len() && (#[trigger] name[i] == '/' || name[i] == '\\' || name[i] == '\0'))
            || (exists|i: int|
            0 <= i < name.len() - 1 && #[trigger] name[i] == '.' && name[i + 1] == '.') ==> verdict(
            name,
        ) == NameVerdict::Unsafe,
        verdict(name) != NameVerdict::Fine ==> safe_name(name) == "decrypted_output"@,
{
    if name == seq!['.'] {
        assert(name[0] == '.');
        assert(!name.contains('/') && !name.contains('\\') && !name.contains('\0'));
        assert(!has_two_dots(name));
    }
    if exists|i: int|
        0 <= i < name.len() && (#[trigger] name[i] == '/' || name[i] == '\\' || name[i] == '\0') {
        let i = choose|i: int|
            0 <= i < name.len() && (#[trigger] name[i] == '/' || name[i] == '\\' || name[i] == '\0');
        assert(name.contains(name[i]));
    }
    if name == seq!['.', '.'] {
        assert(name[0] == '.' && name[1] == '.');
    }
}

/// What stands for a character of a path.
fn sanitize_char(c: char) -> (r: char)
    ensures
        r == sanitized_char(c),
{
    if c == '<' || c == '>' || c == ':' || c == '"' || c == '|' || c == '?' || c == '*' || c == '\\'
        || (c as u32) < 0x20 {
        '_'
    } else {
        c
    }
}

/// Replaces the characters of a path component that exFAT and Win32 do not
/// take by underscores.
pub fn sanitize_path_component(component: &str) -> (r: String)
    ensures
        r@ == sanitized(component@),
{
    let chars = to_chars(component);
    let mut out = String::new();
    let mut i: usize = 0;
    while i < chars.len()
        invariant
            i <= chars@.len(),
            chars@ == component@,
            out@ == sanitized(component@.take(i as int)),
        decreases chars@.len() - i,
    {
        out.push(sanitize_char(chars[i]));
        assert(out@ =~= sanitized(component@.take(i + 1)));
        i = i + 1;
    }
    assert(component@.take(i as int) =~= component@);
    out
}

/// Where an entry of an archive goes.
pub struct EntryPlan {
    /// The path below the directory that is unpacked into.
    pub path: String,
    /// Whether the entry is left out, because its path climbs or stays.
    pub skip: bool,
}

/// Where the entry with the given path goes: its components, sanitized and
/// joined again. It is left out where one of them is a special directory
/// entry.
pub fn plan_entry(entry_path: &str) -> (plan: EntryPlan)
    ensures
        plan.path@ == crate::text::joined(sanitized_components(entry_path@), '/'),
        plan.skip == has_dots_component(entry_path@),
{
    let parts = split(entry_path, '/');
    let mut sanitized_parts: Vec<String> = Vec::new();
    let mut skip = false;
    let mut i: usize = 0;
    let ghost all = sanitized_components(entry_path@);
    proof {
        reveal_strlit("..");
        reveal_strlit(".");
        assert("."@ =~= seq!['.']);
        assert(".."@ =~= seq!['.', '.']);
    }
    while i < parts.len()
        invariant
            i <= parts@.len(),
            crate::text::texts(parts@) == crate::text::pieces(entry_path@, '/'),
            all == sanitized_components(entry_path@),
            crate::text::texts(sanitized_parts@) == all.take(i as int),
            skip == exists|k: int| 0 <= k < i && is_dots(#[trigger] all[k]),
            "."@ == seq!['.'],
            ".."@ == seq!['.', '.'],
        decreases parts@.len() - i,
    {
        let part = sanitize_path_component(parts[i].as_str());
        assert(crate::text::texts(parts@)[i as int] == parts@[i as int]@);
        assert(part@ == all[i as int]);
        let ghost was = skip;
        if same_text(part.as_str(), "..") || same_text(part.as_str(), ".") {
            skip = true;
            assert(is_dots(all[i as int]));
        }
        let ghost before = sanitized_parts@;
        sanitized_parts.push(part);
        assert(crate::text::texts(sanitized_parts@) =~= crate::text::texts(before).push(
            all[i as int],
        ));
        assert(all.take(i + 1) =~= all.take(i as int).push(all[i as int]));
        proof {
            if was {
                let k = choose|k: int| 0 <= k < i && is_dots(#[trigger] all[k]);
                assert(0 <= k < i + 1 && is_dots(all[k]));
            }
        }
        i = i + 1;
    }
    assert(all.take(all.len() as int) =~= all);
    EntryPlan { path: join(&sanitized_parts, '/'), skip }
}

/// How a file name is judged.
pub fn judge_filename(name: &str) -> (v: NameVerdict)
    ensures
        v == verdict(name@),
{
    if name.is_empty() {
        return NameVerdict::Empty;
    }
    let chars = to_chars(name);
    let mut i: usize = 0;
    while i < chars.len()
        invariant
            i <= chars@.len(),
            chars@ == name@,
            forall|k: int|
                0 <= k < i ==> chars@[k] != '/' && chars@[k] != '\\' && #[trigger] chars@[k] != '\0',
            forall|k: int|
                0 <= k < i && k < chars@.len() - 1 ==> !(#[trigger] chars@[k] == '.' && chars@[k
                    + 1] == '.'),
        decreases chars@.len() - i,
    {
        let c = chars[i];
        if c == '/' || c == '\\' || c == '\0' {
            assert(name@[i as int] == c);
            assert(name@.contains(c));
            return NameVerdict::Unsafe;
        }
        if c == '.' && i + 1 < chars.len() && chars[i + 1] == '.' {
            assert(name@[i as int] == '.' && name@[i + 1] == '.');
            return NameVerdict::Unsafe;
        }
        i = i + 1;
    }
    proof {
        reveal_strlit("..");
        reveal_strlit(".");
        assert("."@ =~= seq!['.']);
        assert(".."@ =~= seq!['.', '.']);
    }
    if same_text(name, ".") || same_text(name, "..") {
        return NameVerdict::Special;
    }
    NameVerdict::Fine
}

/// `name` where it can be used as a file name, and else a fallback.
pub fn sanitize_filename(name: &str) -> (r: String)
    ensures
        r@ == safe_name(name@),
{
    if judge_filename(name) == NameVerdict::Fine {
        let chars = to_chars(name);
        let copy = from_chars(&chars, 0, chars.len());
        assert(copy@ =~= name@);
        copy
    } else {
        String::from_str("decrypted_output")
    }
}

/// The name of the container for what has the given stem.
pub fn container_name(stem: &str, suffix: &str) -> (r: String)
    ensures
        r@ == stem@ + "-"@ + suffix@ + ".crypt"@,
        r@.len() == stem@.len() + 1 + suffix@.len() + 6,
        r@.take(stem@.len() as int) == stem@,
        r@[stem@.len() as int] == '-',
        r@.subrange(stem@.len() + 1int, stem@.len() + 1int + suffix@.len()) == suffix@,
        r@.skip(stem@.len() + 1int + suffix@.len()) == seq!['.', 'c', 'r', 'y', 'p', 't'],
{
    proof {
        reveal_strlit("-");
        reveal_strlit(".crypt");
    }
    let mut r = String::from_str(stem);
    r.append("-");
    r.append(suffix);
    r.append(".crypt");
    r
}

} // verus!
