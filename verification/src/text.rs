//! Text as a sequence of characters: the operations on strings that the rest of the crate is
//! built from, each with its meaning stated on `Seq<char>`.

use vstd::prelude::*;

verus! {

/// `String::push` appends one character.
pub assume_specification[ String::push ](s: &mut String, ch: char)
    ensures
        final(s)@ == old(s)@.push(ch),
;

// ---- Characters ----

/// The Unicode `White_Space` property.
pub open spec fn is_white(c: char) -> bool {
    let u = c as u32;
    ||| 0x9 <= u <= 0xD
    ||| u == 0x20
    ||| u == 0x85
    ||| u == 0xA0
    ||| u == 0x1680
    ||| 0x2000 <= u <= 0x200A
    ||| u == 0x2028
    ||| u == 0x2029
    ||| u == 0x202F
    ||| u == 0x205F
    ||| u == 0x3000
}

pub open spec fn is_digit(c: char) -> bool {
    '0' <= c <= '9'
}

pub open spec fn is_ascii_letter(c: char) -> bool {
    ('a' <= c <= 'z') || ('A' <= c <= 'Z')
}

/// Punctuation that is dropped at either end of a conversation title.
pub open spec fn is_title_mark(c: char) -> bool {
    ||| c == ',' || c == '，' || c == '.' || c == '。' || c == ':' || c == '：' || c == ';' || c
        == '；'
    ||| c == '!' || c == '！' || c == '?' || c == '？' || c == '、' || c == '-' || c == '—' || c
        == '_'
    ||| c == '…' || c == '"' || c == '\'' || c == '“' || c == '”' || c == '‘' || c == '’'
    ||| c == '(' || c == ')' || c == '（' || c == '）' || c == '[' || c == ']' || c == '【' || c
        == '】'
}

/// A set of characters that may be stripped from an end of a text.
#[derive(Clone, Copy)]
pub enum CharClass {
    /// White space.
    White,
    /// White space and title punctuation.
    WhiteOrMark,
    /// Carriage return and line feed.
    LineEnd,
    /// One character.
    Only(char),
}

impl CharClass {
    pub open spec fn has(self, c: char) -> bool {
        match self {
            CharClass::White => is_white(c),
            CharClass::WhiteOrMark => is_white(c) || is_title_mark(c),
            CharClass::LineEnd => c == '\r' || c == '\n',
            CharClass::Only(d) => c == d,
        }
    }

    pub fn admits(&self, c: char) -> (b: bool)
        ensures
            b == self.has(c),
    {
        match self {
            CharClass::White => is_whitespace(c),
            CharClass::WhiteOrMark => is_whitespace(c) || is_title_punctuation(c),
            CharClass::LineEnd => c == '\r' || c == '\n',
            CharClass::Only(d) => c == *d,
        }
    }
}

pub fn is_whitespace(c: char) -> (b: bool)
    ensures
        b == is_white(c),
{
    let u: u32 = c as u32;
    (0x9 <= u && u <= 0xD) || u == 0x20 || u == 0x85 || u == 0xA0 || u == 0x1680 || (0x2000 <= u
        && u <= 0x200A) || u == 0x2028 || u == 0x2029 || u == 0x202F || u == 0x205F || u == 0x3000
}

pub fn is_ascii_digit(c: char) -> (b: bool)
    ensures
        b == is_digit(c),
{
    '0' <= c && c <= '9'
}

pub fn is_ascii_alphabetic(c: char) -> (b: bool)
    ensures
        b == is_ascii_letter(c),
{
    ('a' <= c && c <= 'z') || ('A' <= c && c <= 'Z')
}

pub fn is_title_punctuation(c: char) -> (b: bool)
    ensures
        b == is_title_mark(c),
{
    c == ',' || c == '，' || c == '.' || c == '。' || c == ':' || c == '：' || c == ';' || c == '；'
        || c == '!' || c == '！' || c == '?' || c == '？' || c == '、' || c == '-' || c == '—' || c
        == '_' || c == '…' || c == '"' || c == '\'' || c == '“' || c == '”' || c == '‘' || c == '’'
        || c == '(' || c == ')' || c == '（' || c == '）' || c == '[' || c == ']' || c == '【' || c
        == '】'
}

// ---- Between strings and vectors of characters ----

pub fn chars_of(s: &str) -> (v: Vec<char>)
    ensures
        v@ == s@,
{
    let mut v: Vec<char> = Vec::new();
    for c in it: s.chars()
        invariant
            it.seq() == s@,
            v@ == s@.take(it.index()),
    {
        proof {
            assert(s@.take(it.index() + 1) == s@.take(it.index()).push(s@[it.index()]));
        }
        v.push(c);
    }
    assert(s@.take(s@.len() as int) == s@);
    v
}

/// The characters from `from` up to `to`.
pub fn text_between(v: &Vec<char>, from: usize, to: usize) -> (s: String)
    requires
        from <= to <= v@.len(),
    ensures
        s@ == v@.subrange(from as int, to as int),
{
    let mut s = String::new();
    let mut i: usize = from;
    while i < to
        invariant
            from <= i <= to <= v@.len(),
            s@ == v@.subrange(from as int, i as int),
        decreases to - i,
    {
        s.push(v[i]);
        i = i + 1;
        assert(v@.subrange(from as int, i as int) == v@.subrange(from as int, i - 1).push(
            v@[i - 1],
        ));
    }
    s
}

pub fn text_of(v: &Vec<char>) -> (s: String)
    ensures
        s@ == v@,
{
    let s = text_between(v, 0, v.len());
    assert(v@.subrange(0, v@.len() as int) == v@);
    s
}

pub fn copy_text(s: &str) -> (r: String)
    ensures
        r@ == s@,
{
    let v = chars_of(s);
    text_of(&v)
}

/// Whether two texts hold the same characters.
pub fn same(a: &str, b: &str) -> (r: bool)
    ensures
        r == (a@ == b@),
{
    let x = chars_of(a);
    let y = chars_of(b);
    if x.len() != y.len() {
        return false;
    }
    let mut i: usize = 0;
    while i < x.len()
        invariant
            x@ == a@,
            y@ == b@,
            x@.len() == y@.len(),
            i <= x@.len(),
            forall|j: int| 0 <= j < i ==> x@[j] == y@[j],
        decreases x@.len() - i,
    {
        if x[i] != y[i] {
            return false;
        }
        i = i + 1;
    }
    assert(a@ =~= b@);
    true
}

/// The contents of a sequence of strings.
pub open spec fn views(v: Seq<String>) -> Seq<Seq<char>> {
    v.map_values(|s: String| s@)
}

pub proof fn lemma_views_push(v: Seq<String>, s: String)
    ensures
        views(v.push(s)) == views(v).push(s@),
{
    assert(views(v.push(s)) =~= views(v).push(s@));
}

// ---- Stripping ----

/// `s` without its longest prefix of characters of the class.
pub open spec fn front_stripped(s: Seq<char>, class: CharClass) -> Seq<char>
    decreases s.len(),
{
    if s.len() > 0 && class.has(s[0]) {
        front_stripped(s.skip(1), class)
    } else {
        s
    }
}

/// `s` without its longest suffix of characters of the class.
pub open spec fn back_stripped(s: Seq<char>, class: CharClass) -> Seq<char>
    decreases s.len(),
{
    if s.len() > 0 && class.has(s.last()) {
        back_stripped(s.drop_last(), class)
    } else {
        s
    }
}

pub open spec fn stripped(s: Seq<char>, class: CharClass) -> Seq<char> {
    back_stripped(front_stripped(s, class), class)
}

/// `s` without white space at either end.
pub open spec fn trimmed(s: Seq<char>) -> Seq<char> {
    stripped(s, CharClass::White)
}

pub fn strip_front(s: &str, class: CharClass) -> (r: String)
    ensures
        r@ == front_stripped(s@, class),
{
    let v = chars_of(s);
    let mut i: usize = 0;
    assert(v@.skip(0) == v@);
    while i < v.len() && class.admits(v[i])
        invariant
            i <= v@.len(),
            v@ == s@,
            front_stripped(v@.skip(i as int), class) == front_stripped(s@, class),
        decreases v@.len() - i,
    {
        assert(v@.skip(i as int).skip(1) == v@.skip(i + 1));
        i = i + 1;
    }
    assert(v@.subrange(i as int, v@.len() as int) == v@.skip(i as int));
    text_between(&v, i, v.len())
}

pub fn strip_back(s: &str, class: CharClass) -> (r: String)
    ensures
        r@ == back_stripped(s@, class),
{
    let v = chars_of(s);
    let mut i: usize = v.len();
    assert(v@.take(v@.len() as int) == v@);
    while i > 0 && class.admits(v[i - 1])
        invariant
            i <= v@.len(),
            v@ == s@,
            back_stripped(v@.take(i as int), class) == back_stripped(s@, class),
        decreases i,
    {
        assert(v@.take(i as int).drop_last() == v@.take(i - 1));
        assert(v@.take(i as int).last() == v@[i - 1]);
        i = i - 1;
    }
    assert(i > 0 ==> v@.take(i as int).last() == v@[i - 1]);
    assert(v@.subrange(0, i as int) == v@.take(i as int));
    text_between(&v, 0, i)
}

pub fn strip(s: &str, class: CharClass) -> (r: String)
    ensures
        r@ == stripped(s@, class),
{
    let front = strip_front(s, class);
    strip_back(front.as_str(), class)
}

pub fn trim(s: &str) -> (r: String)
    ensures
        r@ == trimmed(s@),
{
    strip(s, CharClass::White)
}

// ---- Searching ----

pub open spec fn occurs_at(s: Seq<char>, pattern: Seq<char>, i: int) -> bool {
    &&& 0 <= i
    &&& i + pattern.len() <= s.len()
    &&& s.subrange(i, i + pattern.len()) == pattern
}

pub open spec fn contains(s: Seq<char>, pattern: Seq<char>) -> bool {
    exists|i: int| occurs_at(s, pattern, i)
}

/// The first position at or after `from` where the pattern occurs.
pub open spec fn found_from(s: Seq<char>, pattern: Seq<char>, from: int) -> Option<int>
    decreases s.len() + 1 - from,
{
    if from < 0 || from + pattern.len() > s.len() {
        None
    } else if occurs_at(s, pattern, from) {
        Some(from)
    } else {
        found_from(s, pattern, from + 1)
    }
}

pub open spec fn has_prefix(s: Seq<char>, prefix: Seq<char>) -> bool {
    prefix.len() <= s.len() && s.take(prefix.len() as int) == prefix
}

pub open spec fn has_suffix(s: Seq<char>, suffix: Seq<char>) -> bool {
    suffix.len() <= s.len() && s.skip(s.len() - suffix.len()) == suffix
}

/// What follows the prefix, if the text has it.
pub open spec fn after_prefix(s: Seq<char>, prefix: Seq<char>) -> Option<Seq<char>> {
    if has_prefix(s, prefix) {
        Some(s.skip(prefix.len() as int))
    } else {
        None
    }
}

/// What precedes the suffix, if the text has it.
pub open spec fn before_suffix(s: Seq<char>, suffix: Seq<char>) -> Option<Seq<char>> {
    if has_suffix(s, suffix) {
        Some(s.take(s.len() - suffix.len()))
    } else {
        None
    }
}

pub proof fn lemma_found_from(s: Seq<char>, pattern: Seq<char>, from: int)
    requires
        0 <= from,
    ensures
        match found_from(s, pattern, from) {
            Some(i) => from <= i && occurs_at(s, pattern, i) && (forall|j: int|
                from <= j < i ==> !occurs_at(s, pattern, j)),
            None => forall|j: int| from <= j ==> !occurs_at(s, pattern, j),
        },
    decreases s.len() + 1 - from,
{
    if from + pattern.len() > s.len() {
    } else if occurs_at(s, pattern, from) {
    } else {
        lemma_found_from(s, pattern, from + 1);
    }
}

fn matches_at(v: &Vec<char>, p: &Vec<char>, i: usize) -> (b: bool)
    requires
        i <= v@.len(),
    ensures
        b == occurs_at(v@, p@, i as int),
{
    if p.len() > v.len() - i {
        return false;
    }
    let mut j: usize = 0;
    while j < p.len()
        invariant
            i + p@.len() <= v.len(),
            j <= p@.len(),
            forall|k: int| 0 <= k < j ==> v@[i + k] == p@[k],
        decreases p@.len() - j,
    {
        if v[i + j] != p[j] {
            assert(v@.subrange(i as int, i + p@.len())[j as int] == v@[i + j]);
            return false;
        }
        j = j + 1;
    }
    assert(v@.subrange(i as int, i + p@.len()) =~= p@);
    true
}

/// The position, in characters, of the first occurrence at or after `from`.
pub fn find_from(s: &str, pattern: &str, from: usize) -> (r: Option<usize>)
    ensures
        match r {
            Some(i) => found_from(s@, pattern@, from as int) == Some(i as int) && i
                + pattern@.len() <= s@.len(),
            None => found_from(s@, pattern@, from as int) is None,
        },
{
    let v = chars_of(s);
    let p = chars_of(pattern);
    let mut i: usize = from;
    while i <= v.len()
        invariant
            from <= i <= v@.len() + 1 || (i == from && i > v@.len()),
            v@ == s@,
            p@ == pattern@,
            found_from(s@, pattern@, from as int) == found_from(s@, pattern@, i as int),
            v@.len() < usize::MAX || i <= v@.len(),
        decreases v@.len() + 1 - i,
    {
        if matches_at(&v, &p, i) {
            return Some(i);
        }
        if i == v.len() {
            assert(found_from(s@, pattern@, i as int) is None) by {
                if i + p@.len() <= v@.len() {
                    assert(found_from(s@, pattern@, i + 1) is None);
                }
            }
            return None;
        }
        i = i + 1;
    }
    None
}

pub fn has_text(s: &str, pattern: &str) -> (b: bool)
    ensures
        b == contains(s@, pattern@),
{
    let r = find_from(s, pattern, 0);
    proof {
        lemma_found_from(s@, pattern@, 0);
    }
    r.is_some()
}

pub fn starts_with(s: &str, prefix: &str) -> (b: bool)
    ensures
        b == has_prefix(s@, prefix@),
{
    let v = chars_of(s);
    let p = chars_of(prefix);
    assert(p@.len() <= v@.len() ==> v@.subrange(0, p@.len() as int) == v@.take(p@.len() as int));
    matches_at(&v, &p, 0)
}

pub fn ends_with(s: &str, suffix: &str) -> (b: bool)
    ensures
        b == has_suffix(s@, suffix@),
{
    let v = chars_of(s);
    let p = chars_of(suffix);
    if p.len() > v.len() {
        return false;
    }
    assert(v@.subrange(v@.len() - p@.len(), v@.len() as int) == v@.skip(v@.len() - p@.len()));
    matches_at(&v, &p, v.len() - p.len())
}

pub fn strip_prefix(s: &str, prefix: &str) -> (r: Option<String>)
    ensures
        match r {
            Some(t) => after_prefix(s@, prefix@) == Some(t@),
            None => after_prefix(s@, prefix@) is None,
        },
{
    if starts_with(s, prefix) {
        let v = chars_of(s);
        let p = chars_of(prefix);
        assert(v@.subrange(p@.len() as int, v@.len() as int) == v@.skip(p@.len() as int));
        Some(text_between(&v, p.len(), v.len()))
    } else {
        None
    }
}

pub fn strip_suffix(s: &str, suffix: &str) -> (r: Option<String>)
    ensures
        match r {
            Some(t) => before_suffix(s@, suffix@) == Some(t@),
            None => before_suffix(s@, suffix@) is None,
        },
{
    if ends_with(s, suffix) {
        let v = chars_of(s);
        let p = chars_of(suffix);
        assert(v@.subrange(0, v@.len() - p@.len()) == v@.take(v@.len() - p@.len()));
        Some(text_between(&v, 0, v.len() - p.len()))
    } else {
        None
    }
}

/// At most the first `n` characters.
pub open spec fn shortened(s: Seq<char>, n: int) -> Seq<char> {
    if s.len() <= n {
        s
    } else {
        s.take(n)
    }
}

pub fn shorten(s: &str, n: usize) -> (r: String)
    ensures
        r@ == shortened(s@, n as int),
{
    let v = chars_of(s);
    if v.len() <= n {
        text_of(&v)
    } else {
        assert(v@.subrange(0, n as int) == v@.take(n as int));
        text_between(&v, 0, n)
    }
}

pub fn char_count(s: &str) -> (n: usize)
    ensures
        n == s@.len(),
{
    let v = chars_of(s);
    v.len()
}

// ---- Splitting and joining ----

/// The pieces between the occurrences of a separator character; one more than there are
/// separators.
pub open spec fn split_at_char(s: Seq<char>, sep: char) -> Seq<Seq<char>>
    decreases s.len(),
{
    if s.len() == 0 {
        seq![Seq::<char>::empty()]
    } else {
        let before = split_at_char(s.drop_last(), sep);
        if s.last() == sep {
            before.push(Seq::<char>::empty())
        } else {
            before.update(before.len() - 1, before.last().push(s.last()))
        }
    }
}

pub fn split(s: &str, sep: char) -> (r: Vec<String>)
    ensures
        views(r@) == split_at_char(s@, sep),
        r@.len() >= 1,
{
    let v = chars_of(s);
    let mut done: Vec<String> = Vec::new();
    let mut cur = String::new();
    let mut i: usize = 0;
    assert(views(done@).push(cur@) =~= split_at_char(s@.take(0), sep));
    while i < v.len()
        invariant
            v@ == s@,
            i <= v@.len(),
            views(done@).push(cur@) == split_at_char(s@.take(i as int), sep),
        decreases v@.len() - i,
    {
        let ghost before = s@.take(i as int);
        let ghost now = s@.take(i + 1);
        proof {
            assert(now.drop_last() == before);
            assert(now.last() == v@[i as int]);
        }
        if v[i] == sep {
            proof {
                lemma_views_push(done@, cur);
            }
            done.push(cur);
            cur = String::new();
            assert(views(done@).push(cur@) == split_at_char(now, sep));
        } else {
            let ghost c0 = cur@;
            cur.push(v[i]);
            assert(views(done@).push(cur@) =~= split_at_char(before, sep).update(
                split_at_char(before, sep).len() - 1,
                c0.push(v@[i as int]),
            ));
        }
        i = i + 1;
    }
    assert(s@.take(s@.len() as int) == s@);
    proof {
        lemma_views_push(done@, cur);
    }
    done.push(cur);
    done
}

/// The words gathered so far and the one being gathered.
pub open spec fn words_so_far(s: Seq<char>) -> (Seq<Seq<char>>, Seq<char>)
    decreases s.len(),
{
    if s.len() == 0 {
        (Seq::empty(), Seq::empty())
    } else {
        let (done, cur) = words_so_far(s.drop_last());
        if !is_white(s.last()) {
            (done, cur.push(s.last()))
        } else if cur.len() > 0 {
            (done.push(cur), Seq::empty())
        } else {
            (done, cur)
        }
    }
}

/// The maximal runs of characters that are not white space.
pub open spec fn words(s: Seq<char>) -> Seq<Seq<char>> {
    let (done, cur) = words_so_far(s);
    if cur.len() > 0 {
        done.push(cur)
    } else {
        done
    }
}

pub fn split_whitespace(s: &str) -> (r: Vec<String>)
    ensures
        views(r@) == words(s@),
{
    let v = chars_of(s);
    let mut done: Vec<String> = Vec::new();
    let mut cur = String::new();
    let mut pending: bool = false;
    let mut i: usize = 0;
    assert(views(done@) =~= Seq::<Seq<char>>::empty());
    while i < v.len()
        invariant
            v@ == s@,
            i <= v@.len(),
            words_so_far(s@.take(i as int)) == (views(done@), cur@),
            pending == (cur@.len() > 0),
        decreases v@.len() - i,
    {
        let ghost now = s@.take(i + 1);
        proof {
            assert(now.drop_last() == s@.take(i as int));
            assert(now.last() == v@[i as int]);
        }
        if !is_whitespace(v[i]) {
            cur.push(v[i]);
            pending = true;
        } else if pending {
            proof {
                lemma_views_push(done@, cur);
            }
            done.push(cur);
            cur = String::new();
            pending = false;
        }
        i = i + 1;
    }
    assert(s@.take(s@.len() as int) == s@);
    if pending {
        proof {
            lemma_views_push(done@, cur);
        }
        done.push(cur);
    }
    done
}

/// A line without the carriage return that belongs to its line ending.
pub open spec fn without_cr(s: Seq<char>) -> Seq<char> {
    if s.len() > 0 && s.last() == '\r' {
        s.drop_last()
    } else {
        s
    }
}

/// The finished lines and the unfinished one.
pub open spec fn lines_so_far(s: Seq<char>) -> (Seq<Seq<char>>, Seq<char>)
    decreases s.len(),
{
    if s.len() == 0 {
        (Seq::empty(), Seq::empty())
    } else {
        let (done, cur) = lines_so_far(s.drop_last());
        if s.last() == '\n' {
            (done.push(without_cr(cur)), Seq::empty())
        } else {
            (done, cur.push(s.last()))
        }
    }
}

/// The lines of a text, without their line endings; a final line ending opens no new line.
pub open spec fn lines_of(s: Seq<char>) -> Seq<Seq<char>> {
    let (done, cur) = lines_so_far(s);
    if cur.len() > 0 {
        done.push(cur)
    } else {
        done
    }
}

pub fn lines(s: &str) -> (r: Vec<String>)
    ensures
        views(r@) == lines_of(s@),
{
    let v = chars_of(s);
    let mut done: Vec<String> = Vec::new();
    let mut start: usize = 0;
    let mut i: usize = 0;
    assert(views(done@) =~= Seq::<Seq<char>>::empty());
    assert(v@.subrange(0, 0) =~= Seq::<char>::empty());
    while i < v.len()
        invariant
            v@ == s@,
            start <= i <= v@.len(),
            lines_so_far(s@.take(i as int)) == (views(done@), v@.subrange(start as int, i as int)),
        decreases v@.len() - i,
    {
        let ghost now = s@.take(i + 1);
        let ghost cur = v@.subrange(start as int, i as int);
        proof {
            assert(now.drop_last() == s@.take(i as int));
            assert(now.last() == v@[i as int]);
        }
        if v[i] == '\n' {
            let end: usize = if i > start && v[i - 1] == '\r' {
                i - 1
            } else {
                i
            };
            proof {
                if cur.len() > 0 {
                    assert(cur.last() == v@[i - 1]);
                }
                assert(v@.subrange(start as int, end as int) == without_cr(cur));
            }
            let line = text_between(&v, start, end);
            proof {
                lemma_views_push(done@, line);
            }
            done.push(line);
            start = i + 1;
            assert(v@.subrange(start as int, i + 1) =~= Seq::<char>::empty());
        } else {
            assert(v@.subrange(start as int, i + 1) == cur.push(v@[i as int]));
        }
        i = i + 1;
    }
    assert(s@.take(s@.len() as int) == s@);
    if start < v.len() {
        let line = text_between(&v, start, v.len());
        proof {
            lemma_views_push(done@, line);
        }
        done.push(line);
    }
    done
}

/// The parts one after another with the separator between neighbours.
pub open spec fn joined(parts: Seq<Seq<char>>, sep: Seq<char>) -> Seq<char>
    decreases parts.len(),
{
    if parts.len() == 0 {
        Seq::empty()
    } else if parts.len() == 1 {
        parts[0]
    } else {
        joined(parts.drop_last(), sep) + sep + parts.last()
    }
}

pub fn join(parts: &Vec<String>, sep: &str) -> (r: String)
    ensures
        r@ == joined(views(parts@), sep@),
{
    let mut out = String::new();
    let mut i: usize = 0;
    assert(views(parts@).take(0) =~= Seq::<Seq<char>>::empty());
    while i < parts.len()
        invariant
            i <= parts@.len(),
            out@ == joined(views(parts@).take(i as int), sep@),
        decreases parts@.len() - i,
    {
        let ghost now = views(parts@).take(i + 1);
        proof {
            assert(now.drop_last() == views(parts@).take(i as int));
            assert(now.last() == parts@[i as int]@);
        }
        if i > 0 {
            out.append(sep);
            out.append(parts[i].as_str());
        } else {
            out.append(parts[i].as_str());
            assert(out@ =~= parts@[0]@);
        }
        i = i + 1;
    }
    assert(views(parts@).take(parts@.len() as int) == views(parts@));
    out
}

// ---- Letters ----

pub open spec fn lower(c: char) -> char {
    if 'A' <= c <= 'Z' {
        ((c as u32 + 32) as u32) as char
    } else {
        c
    }
}

/// The text with its ASCII capitals made small.
pub open spec fn lowered(s: Seq<char>) -> Seq<char> {
    s.map_values(|c: char| lower(c))
}

pub fn lower_char(c: char) -> (r: char)
    ensures
        r == lower(c),
{
    if 'A' <= c && c <= 'Z' {
        let u: u8 = (c as u32 + 32) as u8;
        u as char
    } else {
        c
    }
}

pub fn to_ascii_lowercase(s: &str) -> (r: String)
    ensures
        r@ == lowered(s@),
{
    let v = chars_of(s);
    let mut out = String::new();
    let mut i: usize = 0;
    while i < v.len()
        invariant
            v@ == s@,
            i <= v@.len(),
            out@ == lowered(s@.take(i as int)),
        decreases v@.len() - i,
    {
        out.push(lower_char(v[i]));
        assert(lowered(s@.take(i + 1)) =~= lowered(s@.take(i as int)).push(lower(v@[i as int])));
        i = i + 1;
    }
    assert(s@.take(s@.len() as int) == s@);
    out
}

// ---- Numbers ----

pub open spec fn digit(d: nat) -> char {
    ((48 + d) as u8) as char
}

/// The decimal digits of a number.
pub open spec fn dec(n: nat) -> Seq<char>
    decreases n,
{
    if n < 10 {
        seq![digit(n)]
    } else {
        dec(n / 10).push(digit(n % 10))
    }
}

/// Digits, with zeros in front up to the given width.
pub open spec fn padded_dec(n: nat, width: nat) -> Seq<char> {
    let d = dec(n);
    if d.len() < width {
        Seq::new((width - d.len()) as nat, |i: int| '0') + d
    } else {
        d
    }
}

fn append_dec(out: &mut String, n: u64)
    ensures
        final(out)@ == old(out)@ + dec(n as nat),
    decreases n,
{
    if n < 10 {
        let d: u8 = 48 + n as u8;
        out.push(d as char);
        assert(old(out)@.push(digit(n as nat)) =~= old(out)@ + dec(n as nat));
    } else {
        append_dec(out, n / 10);
        let d: u8 = 48 + (n % 10) as u8;
        out.push(d as char);
        assert((old(out)@ + dec((n / 10) as nat)).push(digit((n % 10) as nat)) =~= old(out)@ + dec(
            n as nat,
        ));
    }
}

pub fn number(n: u64) -> (s: String)
    ensures
        s@ == dec(n as nat),
{
    let mut s = String::new();
    append_dec(&mut s, n);
    assert(Seq::<char>::empty() + dec(n as nat) =~= dec(n as nat));
    s
}

pub fn padded_number(n: u64, width: usize) -> (s: String)
    ensures
        s@ == padded_dec(n as nat, width as nat),
{
    let digits = number(n);
    let len = char_count(digits.as_str());
    let mut s = String::new();
    let mut i: usize = len;
    while i < width
        invariant
            i <= width || i == len,
            len <= i,
            s@ == Seq::new((i - len) as nat, |j: int| '0'),
        decreases width - i,
    {
        s.push('0');
        i = i + 1;
        assert(s@ =~= Seq::new((i - len) as nat, |j: int| '0'));
    }
    s.append(digits.as_str());
    assert(s@ =~= padded_dec(n as nat, width as nat));
    s
}

pub open spec fn all_digits(s: Seq<char>) -> bool {
    forall|i: int| 0 <= i < s.len() ==> is_digit(#[trigger] s[i])
}

/// The value of a sequence of digits.
pub open spec fn value_of(s: Seq<char>) -> nat
    decreases s.len(),
{
    if s.len() == 0 {
        0
    } else {
        value_of(s.drop_last()) * 10 + (s.last() as u32 - 48) as nat
    }
}

/// The number that a text of digits, with a plus sign allowed in front, stands for, up to `max`.
pub open spec fn parsed_unsigned(s: Seq<char>, max: nat) -> Option<nat> {
    let d = if s.len() > 0 && s[0] == '+' {
        s.skip(1)
    } else {
        s
    };
    if d.len() > 0 && all_digits(d) && value_of(d) <= max {
        Some(value_of(d))
    } else {
        None
    }
}

proof fn lemma_value_monotone(s: Seq<char>, i: int)
    requires
        0 <= i <= s.len(),
        all_digits(s),
    ensures
        value_of(s.take(i)) <= value_of(s),
    decreases s.len() - i,
{
    if i < s.len() {
        lemma_value_monotone(s, i + 1);
        assert(s.take(i + 1).drop_last() == s.take(i));
        assert(s.take(i + 1).last() == s[i]);
        assert(is_digit(s[i]));
    } else {
        assert(s.take(i) == s);
    }
}

pub proof fn lemma_dec(n: nat)
    ensures
        all_digits(dec(n)),
        value_of(dec(n)) == n,
        dec(n).len() >= 1,
        n < 10 ==> dec(n).len() == 1,
        10 <= n < 100 ==> dec(n).len() == 2,
        100 <= n < 1000 ==> dec(n).len() == 3,
        1000 <= n < 10000 ==> dec(n).len() == 4,
        10000 <= n ==> dec(n).len() > 4,
    decreases n,
{
    reveal_with_fuel(value_of, 2);
    if n >= 10 {
        lemma_dec(n / 10);
        let front = dec(n / 10);
        let s = front.push(digit(n % 10));
        assert(s.drop_last() == front);
        assert(s.last() == digit(n % 10));
        assert forall|i: int| 0 <= i < s.len() implies is_digit(#[trigger] s[i]) by {
            if i < front.len() {
                assert(s[i] == front[i]);
            }
        }
    } else {
        assert(dec(n).drop_last() =~= Seq::<char>::empty());
        assert(dec(n).last() == digit(n));
    }
}

proof fn lemma_leading_zeros(zeros: nat, d: Seq<char>)
    requires
        all_digits(d),
    ensures
        all_digits(Seq::new(zeros, |i: int| '0') + d),
        value_of(Seq::new(zeros, |i: int| '0') + d) == value_of(d),
    decreases zeros + d.len(),
{
    let z = Seq::new(zeros, |i: int| '0');
    let s = z + d;
    assert forall|i: int| 0 <= i < s.len() implies is_digit(#[trigger] s[i]) by {
        if i >= zeros {
            assert(s[i] == d[i - zeros]);
        }
    }
    if d.len() > 0 {
        assert forall|i: int| 0 <= i < d.drop_last().len() implies is_digit(
            #[trigger] d.drop_last()[i],
        ) by {
            assert(is_digit(d[i]));
        }
        lemma_leading_zeros(zeros, d.drop_last());
        assert(s.drop_last() =~= z + d.drop_last());
        assert(s.last() == d.last());
    } else if zeros > 0 {
        let z1 = Seq::new((zeros - 1) as nat, |i: int| '0');
        lemma_leading_zeros((zeros - 1) as nat, d);
        assert(s.drop_last() =~= z1 + d);
        assert(s.last() == '0');
        assert(value_of(s) == 0);
    } else {
        assert(s =~= d);
    }
}

/// A padded number reads as the number, and has the asked-for width where the number fits.
pub proof fn lemma_padded_dec(n: nat, width: nat)
    ensures
        all_digits(padded_dec(n, width)),
        value_of(padded_dec(n, width)) == n,
        padded_dec(n, width).len() >= 1,
        padded_dec(n, width).len() == (if dec(n).len() < width {
            width
        } else {
            dec(n).len()
        }),
{
    lemma_dec(n);
    if dec(n).len() < width {
        lemma_leading_zeros((width - dec(n).len()) as nat, dec(n));
    }
}

/// Texts, one behind the other.
pub open spec fn run_together(parts: Seq<Seq<char>>) -> Seq<char>
    decreases parts.len(),
{
    if parts.len() == 0 {
        Seq::empty()
    } else {
        run_together(parts.drop_last()) + parts.last()
    }
}

/// Whether a text comes before another, character by character: at the first place where they differ
/// it has the smaller character, or has ended.
pub open spec fn comes_before(a: Seq<char>, b: Seq<char>) -> bool {
    exists|i: int| #[trigger] first_smaller_at(a, b, i)
}

/// Whether two texts agree up to a place where the first has the smaller character, or has ended.
pub open spec fn first_smaller_at(a: Seq<char>, b: Seq<char>, i: int) -> bool {
    &&& 0 <= i <= a.len()
    &&& i < b.len()
    &&& a.take(i) == b.take(i)
    &&& i == a.len() || a[i] < b[i]
}

/// Texts of as many digits come in the order of the numbers that they stand for.
pub proof fn lemma_digits_in_order(a: Seq<char>, b: Seq<char>)
    requires
        a.len() == b.len(),
        all_digits(a),
        all_digits(b),
    ensures
        value_of(a) == value_of(b) ==> a == b,
        value_of(a) < value_of(b) ==> comes_before(a, b),
    decreases a.len(),
{
    if a.len() == 0 {
        assert(a =~= b);
    } else {
        let front_a = a.drop_last();
        let front_b = b.drop_last();
        assert forall|i: int| 0 <= i < front_a.len() implies is_digit(#[trigger] front_a[i]) by {
            assert(is_digit(a[i]));
        }
        assert forall|i: int| 0 <= i < front_b.len() implies is_digit(#[trigger] front_b[i]) by {
            assert(is_digit(b[i]));
        }
        assert(is_digit(a[a.len() - 1]) && is_digit(b[b.len() - 1]));
        lemma_digits_in_order(front_a, front_b);
        if value_of(front_a) == value_of(front_b) {
            if a.last() == b.last() {
                assert(a =~= front_a.push(a.last()));
                assert(b =~= front_b.push(b.last()));
            }
            if a.last() < b.last() {
                let i = a.len() - 1;
                assert(a.take(i) =~= front_a);
                assert(b.take(i) =~= front_b);
                assert(first_smaller_at(a, b, i));
            }
        } else if value_of(front_a) < value_of(front_b) {
            let i = choose|i: int| #[trigger] first_smaller_at(front_a, front_b, i);
            assert(a.take(i) =~= front_a.take(i));
            assert(b.take(i) =~= front_b.take(i));
            assert(first_smaller_at(a, b, i));
        }
    }
}

/// The order of two texts of one length holds between what they begin, after a common text.
pub proof fn lemma_order_within(
    before: Seq<char>,
    a: Seq<char>,
    b: Seq<char>,
    after_a: Seq<char>,
    after_b: Seq<char>,
)
    requires
        a.len() == b.len(),
        comes_before(a, b),
    ensures
        comes_before(before + a + after_a, before + b + after_b),
{
    let i = choose|i: int| #[trigger] first_smaller_at(a, b, i);
    let n = before.len() + i;
    let s = before + a + after_a;
    let t = before + b + after_b;
    assert forall|k: int| 0 <= k < n implies s[k] == t[k] by {
        if k >= before.len() {
            assert(a.take(i)[k - before.len()] == b.take(i)[k - before.len()]);
        }
    }
    assert(s.take(n) =~= t.take(n));
    assert(first_smaller_at(s, t, n));
}

/// A text of digits is read as the number it stands for.
pub proof fn lemma_digits_parse(s: Seq<char>, max: nat)
    requires
        s.len() > 0,
        all_digits(s),
        value_of(s) <= max,
    ensures
        parsed_unsigned(s, max) == Some(value_of(s)),
{
    assert(is_digit(s[0]));
}

pub fn parse_unsigned(s: &str, max: u64) -> (r: Option<u64>)
    ensures
        match r {
            Some(n) => parsed_unsigned(s@, max as nat) == Some(n as nat),
            None => parsed_unsigned(s@, max as nat) is None,
        },
{
    let v = chars_of(s);
    let start: usize = if v.len() > 0 && v[0] == '+' {
        1
    } else {
        0
    };
    let ghost d = v@.skip(start as int);
    assert(start == 0 ==> d == v@);
    if start == v.len() {
        return None;
    }
    let mut n: u64 = 0;
    let mut i: usize = start;
    assert(d.take(0).len() == 0);
    while i < v.len()
        invariant
            v@ == s@,
            start <= i <= v@.len(),
            start <= 1,
            d == v@.skip(start as int),
            d == (if s@.len() > 0 && s@[0] == '+' {
                s@.skip(1)
            } else {
                s@
            }),
            d.len() > 0,
            n <= max,
            n == value_of(d.take(i - start)),
            forall|j: int| 0 <= j < i - start ==> is_digit(#[trigger] d[j]),
        decreases v@.len() - i,
    {
        let c = v[i];
        let ghost k = i - start;
        proof {
            assert(d.take(k + 1).drop_last() == d.take(k));
            assert(d.take(k + 1).last() == d[k]);
            assert(d[k] == c);
        }
        if !is_ascii_digit(c) {
            assert(!all_digits(d));
            return None;
        }
        let wide: u128 = n as u128 * 10 + (c as u128 - 48);
        if wide > max as u128 {
            proof {
                if all_digits(d) {
                    lemma_value_monotone(d, k + 1);
                }
            }
            return None;
        }
        n = wide as u64;
        i = i + 1;
    }
    assert(d.take(d.len() as int) == d);
    Some(n)
}

// ---- Bytes ----

/// How many bytes a character takes in UTF-8.
pub open spec fn char_bytes(c: char) -> int {
    let u = c as u32;
    if u < 0x80 {
        1
    } else if u < 0x800 {
        2
    } else if u < 0x10000 {
        3
    } else {
        4
    }
}

/// How many bytes a text takes in UTF-8.
pub open spec fn text_bytes(s: Seq<char>) -> int
    decreases s.len(),
{
    if s.len() == 0 {
        0
    } else {
        text_bytes(s.drop_last()) + char_bytes(s.last())
    }
}

/// How many characters at the front fit into a number of bytes.
pub open spec fn chars_within(s: Seq<char>, limit: int) -> int
    decreases s.len(),
{
    if s.len() == 0 {
        0
    } else {
        let before = chars_within(s.drop_last(), limit);
        if before == s.len() - 1 && text_bytes(s) <= limit {
            s.len() as int
        } else {
            before
        }
    }
}

fn utf8_len(c: char) -> (n: usize)
    ensures
        n == char_bytes(c),
        1 <= n <= 4,
{
    let u: u32 = c as u32;
    if u < 0x80 {
        1
    } else if u < 0x800 {
        2
    } else if u < 0x10000 {
        3
    } else {
        4
    }
}

proof fn lemma_chars_within_stops(s: Seq<char>, limit: int, n: int)
    requires
        0 <= n <= s.len(),
        chars_within(s.take(n), limit) < n,
    ensures
        chars_within(s, limit) == chars_within(s.take(n), limit),
    decreases s.len() - n,
{
    if n < s.len() {
        assert(s.take(n + 1).drop_last() == s.take(n));
        lemma_chars_within_stops(s, limit, n + 1);
    } else {
        assert(s.take(n) == s);
    }
}

/// As many characters of the front as fit into a number of bytes.
pub fn shorten_to_bytes(s: &str, limit: usize) -> (r: String)
    ensures
        r@ == s@.take(chars_within(s@, limit as int)),
{
    let v = chars_of(s);
    let mut used: usize = 0;
    let mut i: usize = 0;
    while i < v.len()
        invariant
            v@ == s@,
            i <= v@.len(),
            used <= limit,
            used == text_bytes(s@.take(i as int)),
            chars_within(s@.take(i as int), limit as int) == i,
        decreases v@.len() - i,
    {
        let n = utf8_len(v[i]);
        proof {
            assert(s@.take(i + 1).drop_last() == s@.take(i as int));
            assert(s@.take(i + 1).last() == v@[i as int]);
        }
        if n > limit - used {
            proof {
                lemma_chars_within_stops(s@, limit as int, i + 1);
                assert(v@.subrange(0, i as int) == s@.take(i as int));
            }
            return text_between(&v, 0, i);
        }
        used = used + n;
        i = i + 1;
    }
    assert(s@.take(s@.len() as int) == s@);
    text_of(&v)
}

proof fn lemma_text_bytes_grow(s: Seq<char>, n: int)
    requires
        0 <= n <= s.len(),
    ensures
        0 <= text_bytes(s.take(n)) <= text_bytes(s),
    decreases s.len() - n,
{
    if n < s.len() {
        lemma_text_bytes_grow(s, n + 1);
        assert(s.take(n + 1).drop_last() == s.take(n));
        lemma_text_bytes_positive(s.take(n));
    } else {
        assert(s.take(n) == s);
        lemma_text_bytes_positive(s);
    }
}

proof fn lemma_text_bytes_positive(s: Seq<char>)
    ensures
        text_bytes(s) >= 0,
    decreases s.len(),
{
    if s.len() > 0 {
        lemma_text_bytes_positive(s.drop_last());
    }
}

/// Whether a text takes no more than a number of bytes.
pub fn fits_bytes(s: &str, limit: usize) -> (b: bool)
    ensures
        b == (text_bytes(s@) <= limit),
{
    let v = chars_of(s);
    let mut used: usize = 0;
    let mut i: usize = 0;
    while i < v.len()
        invariant
            v@ == s@,
            i <= v@.len(),
            used <= limit,
            used == text_bytes(s@.take(i as int)),
        decreases v@.len() - i,
    {
        let n = utf8_len(v[i]);
        proof {
            assert(s@.take(i + 1).drop_last() == s@.take(i as int));
            assert(s@.take(i + 1).last() == v@[i as int]);
            lemma_text_bytes_grow(s@, i + 1);
        }
        if n > limit - used {
            return false;
        }
        used = used + n;
        i = i + 1;
    }
    assert(s@.take(s@.len() as int) == s@);
    true
}

// ---- Order ----

/// Whether a text stands before another in the order of characters, or is the same.
pub open spec fn not_after(a: Seq<char>, b: Seq<char>) -> bool
    decreases a.len(),
{
    if a.len() == 0 {
        true
    } else if b.len() == 0 {
        false
    } else if a[0] != b[0] {
        a[0] < b[0]
    } else {
        not_after(a.drop_first(), b.drop_first())
    }
}

/// Whether a text stands before another in the order of characters, or is the same.
pub fn stands_not_after(a: &str, b: &str) -> (r: bool)
    ensures
        r == not_after(a@, b@),
{
    let x = chars_of(a);
    let y = chars_of(b);
    let mut i: usize = 0;
    assert(a@.skip(0) =~= a@ && b@.skip(0) =~= b@);
    while i < x.len()
        invariant
            x@ == a@,
            y@ == b@,
            i <= x@.len(),
            i <= y@.len(),
            not_after(a@, b@) == not_after(a@.skip(i as int), b@.skip(i as int)),
        decreases x@.len() - i,
    {
        if i >= y.len() {
            return false;
        }
        let (c, d) = (x[i], y[i]);
        assert(a@.skip(i as int).len() > 0 && b@.skip(i as int).len() > 0);
        assert(a@.skip(i as int)[0] == c && b@.skip(i as int)[0] == d);
        if c != d {
            return c < d;
        }
        assert(a@.skip(i as int).drop_first() =~= a@.skip(i + 1));
        assert(b@.skip(i as int).drop_first() =~= b@.skip(i + 1));
        i = i + 1;
    }
    true
}

// ---- Quotes ----

/// How `{:?}` prints a text.
pub uninterp spec fn quoted(s: Seq<char>) -> Seq<char>;

/// `format!` with `{:?}` on a text: what comes out depends on the text alone.
#[verifier::external_body]
pub(crate) fn quote(s: &str) -> (r: String)
    ensures
        r@ == quoted(s@),
{
    format!("{:?}", s)
}

// ---- What the pieces of a text are ----

/// Pieces parted by a character do not have it; a text with a further such character and a text
/// without any behind it has the same pieces and that text as one more; and a text without any is one
/// piece.
pub proof fn law_pieces_are_between_separators(a: Seq<char>, b: Seq<char>, sep: char)
    requires
        forall|i: int| 0 <= i < b.len() ==> #[trigger] b[i] != sep,
    ensures
        split_at_char(b, sep) == seq![b],
        split_at_char(a.push(sep) + b, sep) == split_at_char(a, sep).push(b),
    decreases b.len(),
{
    let whole = a.push(sep) + b;
    if b.len() == 0 {
        assert(whole =~= a.push(sep));
        assert(whole.drop_last() =~= a);
        assert(b =~= Seq::<char>::empty());
        assert(split_at_char(whole, sep) =~= split_at_char(a, sep).push(b));
    } else {
        let front = b.drop_last();
        assert forall|i: int| 0 <= i < front.len() implies #[trigger] front[i] != sep by {
            assert(b[i] != sep);
        }
        law_pieces_are_between_separators(a, front, sep);
        assert(b[b.len() - 1] != sep);
        assert(front.push(b.last()) =~= b);
        assert(whole.drop_last() =~= a.push(sep) + front);
        assert(split_at_char(b, sep) =~= seq![b]);
        assert(split_at_char(whole, sep) =~= split_at_char(a, sep).push(b));
    }
}

proof fn lemma_pieces_of_front(s: Seq<char>, sep: char)
    ensures
        split_at_char(s, sep).len() >= 1,
        joined(split_at_char(s, sep), seq![sep]) == s,
        forall|k: int, i: int|
            0 <= k < split_at_char(s, sep).len() && 0 <= i < split_at_char(s, sep)[k].len()
                ==> #[trigger] split_at_char(s, sep)[k][i] != sep,
    decreases s.len(),
{
    if s.len() == 0 {
        assert(s =~= Seq::<char>::empty());
    } else {
        let front = s.drop_last();
        lemma_pieces_of_front(front, sep);
        let before = split_at_char(front, sep);
        let now = split_at_char(s, sep);
        let c = s.last();
        assert(front.push(c) =~= s);
        if c == sep {
            assert(now.drop_last() =~= before);
            assert(joined(now, seq![sep]) =~= s);
            assert forall|k: int, i: int| 0 <= k < now.len() && 0 <= i
                < now[k].len() implies #[trigger] now[k][i] != sep by {
                if k < before.len() {
                    assert(now[k] == before[k]);
                    assert(before[k][i] != sep);
                }
            }
        } else {
            let last = before.last().push(c);
            assert(now.drop_last() =~= before.drop_last());
            assert(now.last() =~= last);
            if before.len() == 1 {
                assert(joined(before, seq![sep]) == before[0]);
                assert(joined(now, seq![sep]) == now[0]);
                assert(now[0] =~= s);
            } else {
                assert(joined(before, seq![sep]) == joined(before.drop_last(), seq![sep])
                    + seq![sep] + before.last());
                assert(joined(now, seq![sep]) =~= joined(before.drop_last(), seq![sep]) + seq![sep]
                    + last);
                assert(joined(now, seq![sep]) =~= s);
            }
            assert forall|k: int, i: int| 0 <= k < now.len() && 0 <= i
                < now[k].len() implies #[trigger] now[k][i] != sep by {
                if k < before.len() - 1 {
                    assert(now[k] == before[k]);
                    assert(before[k][i] != sep);
                } else if i < before.last().len() {
                    assert(before[k][i] != sep);
                }
            }
        }
    }
}

/// The pieces of a text, with the separator between each two, are the text again, and none has the
/// separator.
pub proof fn law_pieces_make_the_text(s: Seq<char>, sep: char)
    ensures
        joined(split_at_char(s, sep), seq![sep]) == s,
        forall|k: int, i: int|
            0 <= k < split_at_char(s, sep).len() && 0 <= i < split_at_char(s, sep)[k].len()
                ==> #[trigger] split_at_char(s, sep)[k][i] != sep,
{
    lemma_pieces_of_front(s, sep);
}

pub proof fn lemma_front_gone(s: Seq<char>, class: CharClass)
    ensures
        ({
            let f = front_stripped(s, class);
            &&& f.len() <= s.len()
            &&& f == s.skip(s.len() - f.len())
            &&& f.len() > 0 ==> !class.has(f[0])
            &&& forall|i: int| 0 <= i < s.len() - f.len() ==> class.has(#[trigger] s[i])
        }),
    decreases s.len(),
{
    if s.len() > 0 && class.has(s[0]) {
        let rest = s.skip(1);
        lemma_front_gone(rest, class);
        let f = front_stripped(s, class);
        assert(f =~= s.skip(s.len() - f.len()));
        assert forall|i: int| 0 <= i < s.len() - f.len() implies class.has(#[trigger] s[i]) by {
            if i > 0 {
                assert(rest[i - 1] == s[i]);
            }
        }
    } else {
        assert(s =~= s.skip(0));
    }
}

pub proof fn lemma_back_gone(s: Seq<char>, class: CharClass)
    ensures
        ({
            let b = back_stripped(s, class);
            &&& b.len() <= s.len()
            &&& b == s.take(b.len() as int)
            &&& b.len() > 0 ==> !class.has(b.last())
            &&& forall|i: int| b.len() <= i < s.len() ==> class.has(#[trigger] s[i])
        }),
    decreases s.len(),
{
    if s.len() > 0 && class.has(s.last()) {
        lemma_back_gone(s.drop_last(), class);
        let b = back_stripped(s, class);
        assert(b =~= s.take(b.len() as int));
        assert forall|i: int| b.len() <= i < s.len() implies class.has(#[trigger] s[i]) by {
            if i < s.len() - 1 {
                assert(s.drop_last()[i] == s[i]);
            }
        }
    } else {
        assert(s =~= s.take(s.len() as int));
    }
}

/// A trimmed text is the text from its first character that is not white space to its last.
pub proof fn law_trimming_takes_the_ends(s: Seq<char>) -> (r: (int, int))
    ensures
        0 <= r.0 <= r.1 <= s.len(),
        trimmed(s) == s.subrange(r.0, r.1),
        forall|i: int| 0 <= i < r.0 ==> is_white(#[trigger] s[i]),
        forall|i: int| r.1 <= i < s.len() ==> is_white(#[trigger] s[i]),
        r.0 < r.1 ==> !is_white(s[r.0]) && !is_white(s[r.1 - 1]),
{
    let f = front_stripped(s, CharClass::White);
    lemma_front_gone(s, CharClass::White);
    lemma_back_gone(f, CharClass::White);
    let a = s.len() - f.len();
    let b = a + trimmed(s).len();
    assert(trimmed(s) =~= s.subrange(a, b));
    assert forall|i: int| b <= i < s.len() implies is_white(#[trigger] s[i]) by {
        assert(f[i - a] == s[i]);
    }
    (a, b)
}

/// A line ends at a line feed, and a carriage return right before that goes with it; what stands
/// behind the last line feed is a line where it is anything.
pub proof fn law_lines_end_at_line_feeds(s: Seq<char>, c: char)
    ensures
        lines_so_far(Seq::empty()).0.len() == 0,
        lines_so_far(Seq::empty()).1.len() == 0,
        c == '\n' ==> lines_so_far(s.push(c)).0 == lines_so_far(s).0.push(
            if lines_so_far(s).1.len() > 0 && lines_so_far(s).1.last() == '\r' {
                lines_so_far(s).1.drop_last()
            } else {
                lines_so_far(s).1
            },
        ) && lines_so_far(s.push(c)).1.len() == 0,
        c != '\n' ==> lines_so_far(s.push(c)) == (lines_so_far(s).0, lines_so_far(s).1.push(c)),
        lines_of(s) == (if lines_so_far(s).1.len() > 0 {
            lines_so_far(s).0.push(lines_so_far(s).1)
        } else {
            lines_so_far(s).0
        }),
{
    assert(s.push(c).drop_last() =~= s);
}

/// Words are the runs without white space: a white character ends a word, where one has begun, and
/// every other goes on with it or begins one.
pub proof fn law_words_end_at_white_space(s: Seq<char>, c: char)
    ensures
        words(Seq::empty()).len() == 0,
        is_white(c) ==> words(s.push(c)) == words(s),
        !is_white(c) && words_so_far(s).1.len() == 0 ==> words(s.push(c)) == words(s).push(seq![c]),
        !is_white(c) && words_so_far(s).1.len() > 0 ==> {
            &&& words(s).len() > 0
            &&& words(s).last() == words_so_far(s).1
            &&& words(s.push(c)) == words(s).drop_last().push(words(s).last().push(c))
        },
        words_so_far(s.push(c)).1.len() == 0 <==> is_white(c),
{
    assert(s.push(c).drop_last() =~= s);
    if !is_white(c) {
        if words_so_far(s).1.len() == 0 {
            assert(words_so_far(s).1.push(c) =~= seq![c]);
        } else {
            assert(words(s).drop_last() =~= words_so_far(s).0);
        }
    }
}

/// Texts put together have the separator between each two, and nothing else between or around them.
pub proof fn law_joining_puts_the_separator_between(
    parts: Seq<Seq<char>>,
    part: Seq<char>,
    sep: Seq<char>,
)
    ensures
        joined(Seq::empty(), sep).len() == 0,
        joined(seq![part], sep) == part,
        parts.len() > 0 ==> joined(parts.push(part), sep) == joined(parts, sep) + sep + part,
{
    assert(parts.push(part).drop_last() =~= parts);
}

/// The digits of a number are read as the number again, with or without zeros in front.
pub proof fn law_numbers_are_read_back(n: nat, width: nat, max: nat)
    ensures
        n <= max ==> parsed_unsigned(dec(n), max) == Some(n),
        n <= max ==> parsed_unsigned(padded_dec(n, width), max) == Some(n),
        dec(n).len() >= width ==> padded_dec(n, width) == dec(n),
        dec(n).len() < width ==> padded_dec(n, width).len() == width,
{
    lemma_dec(n);
    lemma_padded_dec(n, width);
    if n <= max {
        lemma_digits_parse(dec(n), max);
        lemma_digits_parse(padded_dec(n, width), max);
    }
}

/// A shortened text is the front of the text, up to so many characters.
pub proof fn law_shortening_keeps_the_front(s: Seq<char>, n: int)
    requires
        0 <= n,
    ensures
        s.len() <= n ==> shortened(s, n) == s,
        s.len() > n ==> shortened(s, n) == s.take(n),
{
}

// ---- What characters are ----

/// Of ASCII the blank, the tab, the line breaks and their like are white space; so are the wide blank
/// and the other blanks of Unicode, and no other character is.
pub proof fn law_white_space_is_blank(c: char)
    ensures
        (c as u32) < 128 ==> (is_white(c) <==> c == ' ' || c == '\t' || c == '\n' || c == '\r' || c
            == '\x0b' || c == '\x0c'),
        (c as u32) >= 128 ==> (is_white(c) <==> c == '\u{85}' || c == '\u{a0}' || c == '\u{1680}'
            || '\u{2000}' <= c <= '\u{200a}' || c == '\u{2028}' || c == '\u{2029}' || c
            == '\u{202f}' || c == '\u{205f}' || c == '\u{3000}'),
{
}

/// The marks that are dropped from titles are these.
pub proof fn law_title_marks_are_these(c: char)
    ensures
        is_title_mark(c) <==> ",，.。:：;；!！?？、-—_…\"'“”‘’()（）[]【】"@.contains(c),
{
    reveal_strlit(",，.。:：;；!！?？、-—_…\"'“”‘’()（）[]【】");
    let marks = ",，.。:：;；!！?？、-—_…\"'“”‘’()（）[]【】"@;
    assert(marks.len() == 31);
    assert(marks[0] == ',');
    assert(marks[1] == '，');
    assert(marks[2] == '.');
    assert(marks[3] == '。');
    assert(marks[4] == ':');
    assert(marks[5] == '：');
    assert(marks[6] == ';');
    assert(marks[7] == '；');
    assert(marks[8] == '!');
    assert(marks[9] == '！');
    assert(marks[10] == '?');
    assert(marks[11] == '？');
    assert(marks[12] == '、');
    assert(marks[13] == '-');
    assert(marks[14] == '—');
    assert(marks[15] == '_');
    assert(marks[16] == '…');
    assert(marks[17] == '"');
    assert(marks[18] == '\'');
    assert(marks[19] == '“');
    assert(marks[20] == '”');
    assert(marks[21] == '‘');
    assert(marks[22] == '’');
    assert(marks[23] == '(');
    assert(marks[24] == ')');
    assert(marks[25] == '（');
    assert(marks[26] == '）');
    assert(marks[27] == '[');
    assert(marks[28] == ']');
    assert(marks[29] == '【');
    assert(marks[30] == '】');
    if marks.contains(c) {
        let i = choose|i: int| 0 <= i < marks.len() && marks[i] == c;
        assert(0 <= i < 31);
    }
}

/// A class of characters has what its name says.
pub proof fn law_classes_hold_their_characters(c: char, d: char)
    ensures
        CharClass::White.has(c) <==> is_white(c),
        CharClass::WhiteOrMark.has(c) <==> is_white(c) || is_title_mark(c),
        CharClass::LineEnd.has(c) <==> c == '\r' || c == '\n',
        CharClass::Only(d).has(c) <==> c == d,
        is_digit(c) <==> 48 <= c as u32 <= 57,
        is_ascii_letter(c) <==> 65 <= c as u32 <= 90 || 97 <= c as u32 <= 122,
{
}

/// Capital letters of ASCII become small, and no other character changes.
pub proof fn law_capital_letters_become_small(s: Seq<char>, i: int)
    requires
        0 <= i < s.len(),
    ensures
        lowered(s).len() == s.len(),
        'A' <= s[i] <= 'Z' ==> lowered(s)[i] as u32 == s[i] as u32 + 32,
        !('A' <= s[i] <= 'Z') ==> lowered(s)[i] == s[i],
{
}

// ---- Finding, prefixes and suffixes ----

/// A pattern is found exactly where a text is something, the pattern, and something more.
pub proof fn law_patterns_are_found(a: Seq<char>, pattern: Seq<char>, b: Seq<char>)
    ensures
        contains(a + pattern + b, pattern),
        contains(a, pattern) ==> exists|i: int|
            0 <= i && i + pattern.len() <= a.len() && a == #[trigger] a.take(i) + pattern + a.skip(
                i + pattern.len(),
            ),
{
    let s = a + pattern + b;
    let n = a.len() as int;
    assert(s.subrange(n, n + pattern.len()) =~= pattern);
    assert(occurs_at(s, pattern, n));
    if contains(a, pattern) {
        let i = choose|i: int| occurs_at(a, pattern, i);
        assert(a =~= a.take(i) + pattern + a.skip(i + pattern.len())) by {
            assert(a =~= a.take(i) + a.subrange(i, i + pattern.len()) + a.skip(i + pattern.len()));
        }
    }
}

/// What stands behind a prefix, and before a suffix, comes back without it; where there is none,
/// nothing does.
pub proof fn law_prefixes_and_suffixes_come_off(a: Seq<char>, b: Seq<char>)
    ensures
        after_prefix(a + b, a) == Some(b),
        before_suffix(a + b, b) == Some(a),
        after_prefix(a, b) matches Some(rest) ==> a == b + rest,
        before_suffix(a, b) matches Some(rest) ==> a == rest + b,
{
    assert((a + b).take(a.len() as int) =~= a);
    assert((a + b).skip(a.len() as int) =~= b);
    assert((a + b).take((a + b).len() - b.len()) =~= a);
    assert((a + b).skip((a + b).len() - b.len()) =~= b);
    if has_prefix(a, b) {
        assert(a =~= a.take(b.len() as int) + a.skip(b.len() as int));
    }
    if has_suffix(a, b) {
        let n = a.len() - b.len();
        assert(a =~= a.take(n) + a.skip(n));
    }
}

// ---- Numbers ----

/// A number is written in tens, with the digits from `0` to `9`, and read in the same way, with or
/// without a plus sign.
pub proof fn law_numbers_are_written_in_tens(n: nat, d: nat, s: Seq<char>, max: nat)
    requires
        d < 10,
    ensures
        dec(d).len() == 1 && dec(d)[0] as u32 == 48 + d,
        n > 0 ==> dec(10 * n + d) == dec(n) + dec(d),
        value_of(Seq::empty()) == 0,
        value_of(s + dec(d)) == 10 * value_of(s) + d,
        s.len() > 0 && (forall|i: int| 0 <= i < s.len() ==> '0' <= #[trigger] s[i] <= '9') && value_of(
            s,
        ) <= max ==> parsed_unsigned(s, max) == Some(value_of(s)) && parsed_unsigned(
            seq!['+'] + s,
            max,
        ) == Some(value_of(s)),
        parsed_unsigned(s, max) matches Some(v) ==> v <= max,
        parsed_unsigned(Seq::empty(), max) is None,
        parsed_unsigned(seq!['+'], max) is None,
{
    if n > 0 {
        assert((10 * n + d) / 10 == n && (10 * n + d) % 10 == d);
        assert(dec(10 * n + d) =~= dec(n) + dec(d));
    }
    let with = s + dec(d);
    assert(with.drop_last() =~= s);
    assert(with.last() == dec(d)[0]);
    assert((seq!['+'] + s).skip(1) =~= s);
    assert(seq!['+'].skip(1).len() == 0);
}

// ---- The order of texts ----

/// The first character in which two texts differ decides which comes before, and a text comes before
/// what it begins; no text comes before itself.
pub proof fn law_the_first_difference_decides(
    p: Seq<char>,
    c: char,
    d: char,
    x: Seq<char>,
    y: Seq<char>,
)
    requires
        c < d,
    ensures
        comes_before(p + seq![c] + x, p + seq![d] + y),
        !comes_before(p + seq![d] + y, p + seq![c] + x),
        comes_before(p, p + seq![c] + x),
        !comes_before(p, p),
        not_after(p + seq![c] + x, p + seq![d] + y),
        !not_after(p + seq![d] + y, p + seq![c] + x),
        not_after(p, p),
        not_after(p, p + seq![c] + x),
        !not_after(p + seq![c] + x, p),
{
    let a = p + seq![c] + x;
    let b = p + seq![d] + y;
    let n = p.len() as int;
    assert(a.take(n) =~= p && b.take(n) =~= p && p.take(n) =~= p);
    assert(a[n] == c && b[n] == d);
    assert(first_smaller_at(a, b, n));
    assert(first_smaller_at(p, a, n));
    assert forall|i: int| !(#[trigger] first_smaller_at(b, a, i)) by {
        if 0 <= i < n {
            assert(a[i] == p[i] && b[i] == p[i]);
        } else if i > n && i <= b.len() && i < a.len() {
            assert(b.take(i)[n] == d && a.take(i)[n] == c);
        }
    }
    lemma_not_after_front(p, seq![c] + x, seq![d] + y);
    lemma_not_after_front(p, seq![d] + y, seq![c] + x);
    lemma_not_after_front(p, Seq::empty(), Seq::empty());
    lemma_not_after_front(p, Seq::empty(), seq![c] + x);
    lemma_not_after_front(p, seq![c] + x, Seq::empty());
    assert(p + (seq![c] + x) =~= a && p + (seq![d] + y) =~= b && p + Seq::<char>::empty() =~= p);
}

proof fn lemma_not_after_front(p: Seq<char>, x: Seq<char>, y: Seq<char>)
    ensures
        not_after(p + x, p + y) == not_after(x, y),
    decreases p.len(),
{
    if p.len() == 0 {
        assert(p + x =~= x && p + y =~= y);
    } else {
        lemma_not_after_front(p.drop_first(), x, y);
        assert((p + x).drop_first() =~= p.drop_first() + x);
        assert((p + y).drop_first() =~= p.drop_first() + y);
    }
}

// ---- Bytes ----

/// A character takes one byte to four, by its number, and a text as many as its characters.
pub proof fn law_texts_have_their_bytes(s: Seq<char>, c: char)
    ensures
        c <= '\u{7f}' ==> char_bytes(c) == 1,
        '\u{80}' <= c <= '\u{7ff}' ==> char_bytes(c) == 2,
        '\u{800}' <= c <= '\u{ffff}' ==> char_bytes(c) == 3,
        '\u{10000}' <= c ==> char_bytes(c) == 4,
        text_bytes(Seq::empty()) == 0,
        text_bytes(s.push(c)) == text_bytes(s) + char_bytes(c),
{
    assert(s.push(c).drop_last() =~= s);
}

/// As many characters as fit into a number of bytes are kept, and no more.
pub proof fn law_as_many_characters_as_fit(s: Seq<char>, limit: int)
    requires
        0 <= limit,
    ensures
        ({
            let n = chars_within(s, limit);
            &&& 0 <= n <= s.len()
            &&& text_bytes(s.take(n)) <= limit
            &&& n < s.len() ==> text_bytes(s.take(n + 1)) > limit
        }),
    decreases s.len(),
{
    if s.len() > 0 {
        let front = s.drop_last();
        law_as_many_characters_as_fit(front, limit);
        let n = chars_within(s, limit);
        assert(s.take(s.len() as int) =~= s);
        if n < s.len() {
            assert(s.take(n) =~= front.take(n));
            if n < front.len() {
                assert(s.take(n + 1) =~= front.take(n + 1));
            }
        }
    }
}

} // verus!
