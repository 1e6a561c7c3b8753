//! Text as sequences of characters: trimming, splitting, joining and searching.

use vstd::prelude::*;

verus! {

/// The characters with the Unicode `White_Space` property.
pub open spec fn white_space(c: char) -> bool {
    ||| '\u{9}' <= c <= '\u{d}'
    ||| c == ' '
    ||| c == '\u{85}'
    ||| c == '\u{a0}'
    ||| c == '\u{1680}'
    ||| '\u{2000}' <= c <= '\u{200a}'
    ||| c == '\u{2028}'
    ||| c == '\u{2029}'
    ||| c == '\u{202f}'
    ||| c == '\u{205f}'
    ||| c == '\u{3000}'
}

/// Whether `c` is white space, as `char::is_whitespace` has it.
pub fn is_white_space(c: char) -> (r: bool)
    ensures
        r == white_space(c),
{
    ('\u{9}' <= c && c <= '\u{d}') || c == ' ' || c == '\u{85}' || c == '\u{a0}' || c == '\u{1680}'
        || ('\u{2000}' <= c && c <= '\u{200a}') || c == '\u{2028}' || c == '\u{2029}' || c
        == '\u{202f}' || c == '\u{205f}' || c == '\u{3000}'
}

/// `String::push` appends one character.
pub assume_specification[ String::push ](s: &mut String, c: char)
    ensures
        final(s)@ == old(s)@.push(c),
;

/// The characters of `s`, in order.
pub fn to_chars(s: &str) -> (v: Vec<char>)
    ensures
        v@ == s@,
{
    let mut v: Vec<char> = Vec::new();
    for c in it: s.chars()
        invariant
            v@ == it.seq().take(it.index() as int),
            it.seq() == s@,
    {
        v.push(c);
    }
    v
}

/// The text of the characters `v[from..to]`.
pub fn from_chars(v: &Vec<char>, from: usize, to: usize) -> (s: String)
    requires
        from <= to <= v.len(),
    ensures
        s@ == v@.subrange(from as int, to as int),
{
    let mut s = String::new();
    let mut i: usize = from;
    while i < to
        invariant
            from <= i <= to <= v.len(),
            s@ == v@.subrange(from as int, i as int),
        decreases to - i,
    {
        s.push(v[i]);
        i += 1;
    }
    s
}

/// Whether two texts hold the same characters.
pub fn eq(a: &str, b: &str) -> (r: bool)
    ensures
        r == (a@ == b@),
{
    let x = to_chars(a);
    let y = to_chars(b);
    eq_chars(&x, &y)
}

/// Whether two character vectors hold the same characters.
pub fn eq_chars(x: &Vec<char>, y: &Vec<char>) -> (r: bool)
    ensures
        r == (x@ == y@),
{
    if x.len() != y.len() {
        return false;
    }
    let mut i: usize = 0;
    while i < x.len()
        invariant
            x.len() == y.len(),
            i <= x.len(),
            x@.take(i as int) == y@.take(i as int),
        decreases x.len() - i,
    {
        if x[i] != y[i] {
            return false;
        }
        proof {
            assert(x@.take(i as int + 1) =~= x@.take(i as int).push(x@[i as int]));
            assert(y@.take(i as int + 1) =~= y@.take(i as int).push(y@[i as int]));
        }
        i += 1;
    }
    proof {
        assert(x@.take(i as int) =~= x@);
        assert(y@.take(i as int) =~= y@);
    }
    true
}

/// The text with its leading white space removed.
pub open spec fn trimmed_start(s: Seq<char>) -> Seq<char>
    decreases s.len(),
{
    if s.len() > 0 && white_space(s[0]) {
        trimmed_start(s.drop_first())
    } else {
        s
    }
}

/// The text with its trailing white space removed.
pub open spec fn trimmed_end(s: Seq<char>) -> Seq<char>
    decreases s.len(),
{
    if s.len() > 0 && white_space(s.last()) {
        trimmed_end(s.drop_last())
    } else {
        s
    }
}

/// The text with white space removed at both ends.
pub open spec fn trimmed(s: Seq<char>) -> Seq<char> {
    trimmed_end(trimmed_start(s))
}

/// Trimming at the start does not change how the end is trimmed.
pub(crate) proof fn lemma_trim_ends(s: Seq<char>)
    ensures
        trimmed_end(s).len() <= s.len(),
        trimmed_end(s) == s.take(trimmed_end(s).len() as int),
        trimmed_end(s).len() > 0 ==> !white_space(trimmed_end(s).last()),
        forall|i: int| trimmed_end(s).len() <= i < s.len() ==> white_space(s[i]),
    decreases s.len(),
{
    if s.len() > 0 && white_space(s.last()) {
        lemma_trim_ends(s.drop_last());
        assert(s.take(trimmed_end(s).len() as int) =~= s.drop_last().take(
            trimmed_end(s).len() as int,
        ));
        assert forall|i: int| trimmed_end(s).len() <= i < s.len() implies white_space(s[i]) by {
            if i < s.len() - 1 {
                assert(s[i] == s.drop_last()[i]);
            }
        }
    } else {
        assert(s.take(s.len() as int) =~= s);
    }
}

/// What is trimmed at both ends depends only on the text trimmed at its end.
pub(crate) proof fn lemma_trim_by_end(s: Seq<char>)
    ensures
        trimmed(s) == trimmed(trimmed_end(s)),
    decreases s.len(),
{
    lemma_trim_ends(s);
    let e = trimmed_end(s);
    if s.len() == 0 {
    } else if e.len() == 0 {
        lemma_all_white(s);
    } else if white_space(s[0]) {
        let t = s.drop_first();
        lemma_trim_by_end(t);
        lemma_trim_ends(t);
        assert(e.drop_first() =~= t.take(e.len() - 1));
        lemma_end_unique(t, e.drop_first());
        assert(e[0] == s[0]);
        assert(trimmed_end(t) == e.drop_first());
    } else {
        lemma_end_fixed(e);
        assert(e[0] == s[0]);
    }
}

/// A text that does not end with white space is trimmed already.
proof fn lemma_end_fixed(e: Seq<char>)
    requires
        e.len() > 0 ==> !white_space(e.last()),
    ensures
        trimmed_end(e) == e,
{
}

/// A text of white space trims to nothing.
proof fn lemma_all_white(s: Seq<char>)
    requires
        forall|i: int| 0 <= i < s.len() ==> white_space(s[i]),
    ensures
        trimmed_start(s).len() == 0,
        trimmed(s) == Seq::<char>::empty(),
        trimmed(Seq::<char>::empty()) == Seq::<char>::empty(),
    decreases s.len(),
{
    if s.len() > 0 {
        assert forall|i: int| 0 <= i < s.drop_first().len() implies white_space(
            s.drop_first()[i],
        ) by {
            assert(s.drop_first()[i] == s[i + 1]);
        }
        lemma_all_white(s.drop_first());
    } else {
        assert(s =~= Seq::<char>::empty());
    }
}

/// The trimmed end of a text is the only prefix that ends visibly and leaves white space.
proof fn lemma_end_unique(s: Seq<char>, e: Seq<char>)
    requires
        e.len() <= s.len(),
        e == s.take(e.len() as int),
        e.len() > 0 ==> !white_space(e.last()),
        forall|i: int| e.len() <= i < s.len() ==> white_space(s[i]),
    ensures
        trimmed_end(s) == e,
{
    lemma_trim_ends(s);
    let t = trimmed_end(s);
    if t.len() < e.len() {
        assert(white_space(s[e.len() - 1]));
    } else if e.len() < t.len() {
        assert(white_space(s[t.len() - 1]));
    }
    assert(t =~= e);
}

/// Where the text of `v[from..]` starts once white space is skipped.
fn first_visible(v: &Vec<char>) -> (i: usize)
    ensures
        i <= v.len(),
        trimmed_start(v@) == v@.skip(i as int),
{
    let mut i: usize = 0;
    assert(v@.skip(0) =~= v@);
    while i < v.len() && is_white_space(v[i])
        invariant
            i <= v.len(),
            trimmed_start(v@) == trimmed_start(v@.skip(i as int)),
        decreases v.len() - i,
    {
        assert(v@.skip(i as int).drop_first() =~= v@.skip(i as int + 1));
        i += 1;
    }
    i
}

/// Where the text of `v[from..]` ends once trailing white space is dropped.
fn last_visible(v: &Vec<char>, from: usize) -> (j: usize)
    requires
        from <= v.len(),
    ensures
        from <= j <= v.len(),
        trimmed_end(v@.skip(from as int)) == v@.subrange(from as int, j as int),
{
    let mut j: usize = v.len();
    assert(v@.skip(from as int) =~= v@.subrange(from as int, j as int));
    while j > from && is_white_space(v[j - 1])
        invariant
            from <= j <= v.len(),
            trimmed_end(v@.skip(from as int)) == trimmed_end(v@.subrange(from as int, j as int)),
        decreases j,
    {
        assert(v@.subrange(from as int, j as int).drop_last() =~= v@.subrange(
            from as int,
            j as int - 1,
        ));
        j -= 1;
    }
    j
}

/// `str::trim_start`.
pub fn trim_start(s: &str) -> (r: String)
    ensures
        r@ == trimmed_start(s@),
{
    let v = to_chars(s);
    let i: usize = first_visible(&v);
    assert(v@.skip(i as int) =~= v@.subrange(i as int, v.len() as int));
    from_chars(&v, i, v.len())
}

/// `str::trim_end`.
pub fn trim_end(s: &str) -> (r: String)
    ensures
        r@ == trimmed_end(s@),
{
    let v = to_chars(s);
    assert(v@.skip(0) =~= v@);
    let j: usize = last_visible(&v, 0);
    from_chars(&v, 0, j)
}

/// `str::trim`.
pub fn trim(s: &str) -> (r: String)
    ensures
        r@ == trimmed(s@),
{
    let v = to_chars(s);
    let i: usize = first_visible(&v);
    let j: usize = last_visible(&v, i);
    from_chars(&v, i, j)
}

/// Whether `s` begins with `p`.
pub open spec fn has_prefix(s: Seq<char>, p: Seq<char>) -> bool {
    p.len() <= s.len() && s.take(p.len() as int) == p
}

/// Whether `s` ends with `p`.
pub open spec fn has_suffix(s: Seq<char>, p: Seq<char>) -> bool {
    p.len() <= s.len() && s.skip(s.len() - p.len()) == p
}

/// Whether `p` stands in `s` at `i`.
pub open spec fn occurs_at(s: Seq<char>, p: Seq<char>, i: int) -> bool {
    0 <= i && i + p.len() <= s.len() && s.subrange(i, i + p.len()) == p
}

/// Whether `p` stands anywhere in `s`.
pub open spec fn occurs(s: Seq<char>, p: Seq<char>) -> bool {
    exists|i: int| occurs_at(s, p, i)
}

/// Whether `p` stands in `v` at `i`.
pub fn stands_at(v: &Vec<char>, p: &Vec<char>, i: usize) -> (r: bool)
    ensures
        r == occurs_at(v@, p@, i as int),
{
    if p.len() > v.len() || i > v.len() - p.len() {
        return false;
    }
    let mut k: usize = 0;
    while k < p.len()
        invariant
            k <= p.len(),
            p.len() <= v.len(),
            i + p.len() <= v.len(),
            v@.subrange(i as int, i + k) == p@.take(k as int),
        decreases p.len() - k,
    {
        if v[i + k] != p[k] {
            proof {
                assert(v@.subrange(i as int, i + p.len())[k as int] != p@[k as int]);
            }
            return false;
        }
        proof {
            assert(v@.subrange(i as int, i + k + 1) =~= v@.subrange(i as int, i + k).push(
                p@[k as int],
            ));
            assert(p@.take(k as int + 1) =~= p@.take(k as int).push(p@[k as int]));
        }
        k += 1;
    }
    assert(p@.take(k as int) =~= p@);
    true
}

/// `str::starts_with` with a text.
pub fn starts_with(s: &str, p: &str) -> (r: bool)
    ensures
        r == has_prefix(s@, p@),
{
    let v = to_chars(s);
    let w = to_chars(p);
    assert(w.len() <= v.len() ==> v@.take(w.len() as int) =~= v@.subrange(0, w.len() as int));
    stands_at(&v, &w, 0)
}

/// `str::ends_with` with a text.
pub fn ends_with(s: &str, p: &str) -> (r: bool)
    ensures
        r == has_suffix(s@, p@),
{
    let v = to_chars(s);
    let w = to_chars(p);
    if w.len() > v.len() {
        return false;
    }
    assert(v@.skip(v.len() - w.len()) =~= v@.subrange(v.len() - w.len(), v.len() as int));
    stands_at(&v, &w, v.len() - w.len())
}

/// What follows `p` in `s`, where `s` begins with `p`.
pub open spec fn after_prefix(s: Seq<char>, p: Seq<char>) -> Option<Seq<char>> {
    if has_prefix(s, p) {
        Some(s.skip(p.len() as int))
    } else {
        None
    }
}

/// The view of an optional text.
pub open spec fn opt(o: Option<String>) -> Option<Seq<char>> {
    match o {
        Some(s) => Some(s@),
        None => None,
    }
}

/// `str::strip_prefix`.
pub fn strip_prefix(s: &str, p: &str) -> (r: Option<String>)
    ensures
        opt(r) == after_prefix(s@, p@),
{
    let v = to_chars(s);
    let w = to_chars(p);
    assert(w.len() <= v.len() ==> v@.take(w.len() as int) =~= v@.subrange(0, w.len() as int));
    if stands_at(&v, &w, 0) {
        assert(v@.skip(w.len() as int) =~= v@.subrange(w.len() as int, v.len() as int));
        Some(from_chars(&v, w.len(), v.len()))
    } else {
        None
    }
}

/// What stands before `p` in `s`, where `s` ends with `p`.
pub open spec fn before_suffix(s: Seq<char>, p: Seq<char>) -> Option<Seq<char>> {
    if has_suffix(s, p) {
        Some(s.take(s.len() - p.len()))
    } else {
        None
    }
}

/// `str::strip_suffix`.
pub fn strip_suffix(s: &str, p: &str) -> (r: Option<String>)
    ensures
        opt(r) == before_suffix(s@, p@),
{
    if ends_with(s, p) {
        let v = to_chars(s);
        let w = to_chars(p);
        assert(v@.take(v.len() - w.len()) =~= v@.subrange(0, v.len() - w.len()));
        Some(from_chars(&v, 0, v.len() - w.len()))
    } else {
        None
    }
}

/// Whether `p` stands in `s`, with the first place it stands.
pub fn find(s: &Vec<char>, p: &Vec<char>) -> (r: Option<usize>)
    ensures
        match r {
            Some(i) => occurs_at(s@, p@, i as int) && (forall|j: int|
                0 <= j < i ==> !occurs_at(s@, p@, j)),
            None => !occurs(s@, p@),
        },
{
    if p.len() > s.len() {
        return None;
    }
    let mut i: usize = 0;
    while i <= s.len() - p.len()
        invariant
            p.len() <= s.len(),
            i <= s.len() - p.len() + 1,
            forall|j: int| 0 <= j < i ==> !occurs_at(s@, p@, j),
        decreases s.len() - p.len() + 1 - i,
    {
        if stands_at(s, p, i) {
            return Some(i);
        }
        if i == s.len() - p.len() {
            return None;
        }
        i += 1;
    }
    None
}

/// `str::contains` with a text.
pub fn contains(s: &str, p: &str) -> (r: bool)
    ensures
        r == occurs(s@, p@),
{
    let v = to_chars(s);
    let w = to_chars(p);
    match find(&v, &w) {
        Some(_) => true,
        None => false,
    }
}

/// The texts of a vector of strings.
pub open spec fn texts(v: Seq<String>) -> Seq<Seq<char>> {
    v.map_values(|s: String| s@)
}

/// The pieces of `s` between occurrences of `c`: each `c` begins a new piece, every other
/// character extends the last one.
pub open spec fn split_on(s: Seq<char>, c: char) -> Seq<Seq<char>>
    decreases s.len(),
{
    if s.len() == 0 {
        seq![Seq::empty()]
    } else {
        let before = split_on(s.drop_last(), c);
        if s.last() == c {
            before.push(Seq::empty())
        } else {
            before.drop_last().push(before.last().push(s.last()))
        }
    }
}

/// Splitting always leaves at least one piece.
pub(crate) proof fn lemma_split_nonempty(s: Seq<char>, c: char)
    ensures
        split_on(s, c).len() > 0,
    decreases s.len(),
{
    if s.len() > 0 {
        lemma_split_nonempty(s.drop_last(), c);
    }
}

/// `str::split` with a character.
pub fn split(s: &str, c: char) -> (r: Vec<String>)
    ensures
        texts(r@) == split_on(s@, c),
{
    let v = to_chars(s);
    let mut r: Vec<String> = Vec::new();
    let mut piece = String::new();
    let mut i: usize = 0;
    assert(v@.take(0) =~= Seq::<char>::empty());
    assert(texts(r@).push(piece@) =~= seq![Seq::<char>::empty()]);
    while i < v.len()
        invariant
            i <= v.len(),
            v@ == s@,
            texts(r@).push(piece@) == split_on(v@.take(i as int), c),
        decreases v.len() - i,
    {
        let ch = v[i];
        let ghost before = texts(r@).push(piece@);
        proof {
            assert(v@.take(i as int + 1).drop_last() =~= v@.take(i as int));
            assert(before.drop_last() =~= texts(r@));
        }
        if ch == c {
            r.push(piece);
            proof {
                assert(texts(r@) =~= before);
            }
            piece = String::new();
            assert(piece@ =~= Seq::<char>::empty());
        } else {
            piece.push(ch);
        }
        i += 1;
    }
    assert(v@.take(i as int) =~= v@);
    let ghost before = texts(r@).push(piece@);
    r.push(piece);
    assert(texts(r@) =~= before);
    r
}

/// A line with one trailing carriage return removed.
pub open spec fn without_cr(s: Seq<char>) -> Seq<char> {
    if s.len() > 0 && s.last() == '\r' {
        s.drop_last()
    } else {
        s
    }
}

/// The lines of `s`: the pieces between line feeds, without the carriage return of a line
/// ended by both, and without an empty piece behind a final line feed.
pub open spec fn lines_of(s: Seq<char>) -> Seq<Seq<char>> {
    let pieces = split_on(s, '\n');
    let ended = pieces.drop_last().map_values(|p: Seq<char>| without_cr(p));
    if pieces.last().len() == 0 {
        ended
    } else {
        ended.push(pieces.last())
    }
}

/// A text that is not empty has a line.
pub(crate) proof fn lemma_lines_nonempty(s: Seq<char>)
    requires
        s.len() > 0,
    ensures
        lines_of(s).len() > 0,
{
    lemma_split_nonempty(s.drop_last(), '\n');
    lemma_split_nonempty(s, '\n');
}

/// `str::lines`.
pub fn lines(s: &str) -> (r: Vec<String>)
    ensures
        texts(r@) == lines_of(s@),
{
    let mut pieces = split(s, '\n');
    let ghost all = texts(pieces@);
    proof {
        lemma_split_nonempty(s@, '\n');
    }
    let last = pieces.pop();
    assert(texts(pieces@) =~= all.drop_last());
    let mut r: Vec<String> = Vec::new();
    let mut i: usize = 0;
    while i < pieces.len()
        invariant
            i <= pieces.len(),
            r.len() == i,
            forall|j: int| 0 <= j < i ==> (#[trigger] r@[j])@ == without_cr(pieces@[j]@),
        decreases pieces.len() - i,
    {
        let v = to_chars(&pieces[i]);
        if v.len() > 0 && v[v.len() - 1] == '\r' {
            assert(v@.drop_last() =~= v@.subrange(0, v.len() - 1));
            r.push(from_chars(&v, 0, v.len() - 1));
        } else {
            assert(v@ =~= v@.subrange(0, v.len() as int));
            r.push(from_chars(&v, 0, v.len()));
        }
        i += 1;
    }
    let ghost ended = all.drop_last().map_values(|p: Seq<char>| without_cr(p));
    assert(texts(r@) =~= ended) by {
        assert forall|j: int| 0 <= j < r.len() implies (#[trigger] r@[j])@ == ended[j] by {
            assert(texts(pieces@)[j] == pieces@[j]@);
        }
    }
    if let Some(last) = last {
        assert(last@ == all.last());
        if last.as_str().unicode_len() > 0 {
            r.push(last);
            assert(texts(r@) =~= ended.push(last@));
        }
    }
    r
}

/// The words of a text: the runs of visible characters. One begins where a visible character
/// has none right before it.
pub open spec fn words_of(s: Seq<char>) -> Seq<Seq<char>>
    decreases s.len(),
{
    if s.len() == 0 {
        Seq::empty()
    } else {
        let before = words_of(s.drop_last());
        if white_space(s.last()) {
            before
        } else if s.len() == 1 || white_space(s[s.len() - 2]) {
            before.push(seq![s.last()])
        } else {
            before.drop_last().push(before.last().push(s.last()))
        }
    }
}

/// `str::split_whitespace`.
pub fn split_white_space(s: &str) -> (r: Vec<String>)
    ensures
        texts(r@) == words_of(s@),
{
    let v = to_chars(s);
    let mut r: Vec<String> = Vec::new();
    let mut word = String::new();
    let mut inside = false;
    let mut i: usize = 0;
    assert(texts(r@) =~= words_of(v@.take(0)));
    while i < v.len()
        invariant
            i <= v.len(),
            v@ == s@,
            inside == (i > 0 && !white_space(v@[i - 1])),
            inside ==> texts(r@).push(word@) == words_of(v@.take(i as int)),
            !inside ==> texts(r@) == words_of(v@.take(i as int)) && word@.len() == 0,
        decreases v.len() - i,
    {
        let ghost next = v@.take(i as int + 1);
        let ghost before = texts(r@).push(word@);
        proof {
            assert(next.drop_last() =~= v@.take(i as int));
            assert(before.drop_last() =~= texts(r@));
        }
        if is_white_space(v[i]) {
            if inside {
                r.push(word);
                assert(texts(r@) =~= before);
                word = String::new();
                inside = false;
            }
        } else {
            word.push(v[i]);
            assert(!inside ==> word@ =~= seq![v@[i as int]]);
            inside = true;
        }
        i += 1;
    }
    assert(v@.take(i as int) =~= v@);
    if inside {
        let ghost before = texts(r@).push(word@);
        r.push(word);
        assert(texts(r@) =~= before);
    }
    r
}

/// The texts one after the other, with `sep` between each two.
pub open spec fn joined(parts: Seq<Seq<char>>, sep: Seq<char>) -> Seq<char>
    decreases parts.len(),
{
    if parts.len() == 0 {
        Seq::empty()
    } else if parts.len() == 1 {
        parts[0]
    } else {
        joined(parts.drop_last(), sep) + sep + parts.last()
    }
}

/// `[String]::join`.
pub fn join(parts: &Vec<String>, sep: &str) -> (r: String)
    ensures
        r@ == joined(texts(parts@), sep@),
{
    let mut r = String::new();
    let mut i: usize = 0;
    assert(texts(parts@).take(0) =~= Seq::<Seq<char>>::empty());
    assert(r@ =~= Seq::<char>::empty());
    while i < parts.len()
        invariant
            i <= parts.len(),
            r@ == joined(texts(parts@).take(i as int), sep@),
        decreases parts.len() - i,
    {
        let ghost t = texts(parts@).take(i as int + 1);
        assert(t.drop_last() =~= texts(parts@).take(i as int));
        if i > 0 {
            r.append(sep);
        }
        r.append(parts[i].as_str());
        assert(i == 0 ==> r@ =~= parts@[0]@);
        i += 1;
    }
    assert(texts(parts@).take(i as int) =~= texts(parts@));
    r
}

/// The digit that stands for `d`.
pub open spec fn digit(d: nat) -> char {
    (('0' as int) + d) as char
}

/// The decimal numeral of `n`.
pub open spec fn decimal_of(n: nat) -> Seq<char>
    decreases n,
{
    if n < 10 {
        seq![digit(n)]
    } else {
        decimal_of(n / 10).push(digit(n % 10))
    }
}

/// The character of the digit `d`.
fn digit_char(d: u128) -> (c: char)
    requires
        d < 10,
    ensures
        c == digit(d as nat),
{
    (48u8 + d as u8) as char
}

/// The decimal numeral of `n`, as `n.to_string()` gives it.
pub fn decimal(n: u64) -> (r: String)
    ensures
        r@ == decimal_of(n as nat),
{
    wide_decimal(n as u128)
}

/// The decimal numeral of a number that may not fit in a machine word.
pub fn wide_decimal(n: u128) -> (r: String)
    ensures
        r@ == decimal_of(n as nat),
    decreases n,
{
    if n < 10 {
        let mut r = String::new();
        r.push(digit_char(n));
        assert(r@ =~= decimal_of(n as nat));
        r
    } else {
        let mut r = wide_decimal(n / 10);
        r.push(digit_char(n % 10));
        r
    }
}

/// `c` repeated `n` times.
pub open spec fn repeated(c: char, n: nat) -> Seq<char> {
    Seq::new(n, |i: int| c)
}

/// A text of `n` times `c`.
pub fn repeat(c: char, n: usize) -> (r: String)
    ensures
        r@ == repeated(c, n as nat),
{
    let mut r = String::new();
    let mut i: usize = 0;
    assert(r@ =~= repeated(c, 0));
    while i < n
        invariant
            i <= n,
            r@ == repeated(c, i as nat),
        decreases n - i,
    {
        r.push(c);
        i += 1;
        assert(r@ =~= repeated(c, i as nat));
    }
    r
}

/// A copy of `s`.
pub fn copy(s: &str) -> (r: String)
    ensures
        r@ == s@,
{
    s.to_owned()
}

/// `a` followed by `b`.
pub fn concat(a: &str, b: &str) -> (r: String)
    ensures
        r@ == a@ + b@,
{
    let mut r = a.to_owned();
    r.append(b);
    r
}

/// `a`, `b` and `c`, one after the other.
pub fn concat3(a: &str, b: &str, c: &str) -> (r: String)
    ensures
        r@ == a@ + b@ + c@,
{
    let mut r = a.to_owned();
    r.append(b);
    r.append(c);
    r
}

/// The numeral of `n`, with a minus sign in front of a negative number.
pub open spec fn signed_decimal_of(n: int) -> Seq<char> {
    if n < 0 {
        seq!['-'] + decimal_of((-n) as nat)
    } else {
        decimal_of(n as nat)
    }
}

/// The numeral of `n`, as `n.to_string()` gives it.
pub fn signed_decimal(n: i32) -> (r: String)
    ensures
        r@ == signed_decimal_of(n as int),
{
    if n < 0 {
        let size: i64 = -(n as i64);
        let digits = decimal(size as u64);
        let mut r = String::new();
        r.push('-');
        r.append(digits.as_str());
        assert(r@ =~= signed_decimal_of(n as int));
        r
    } else {
        decimal(n as u64)
    }
}

/// The order of texts: character by character, a prefix before what it begins.
pub open spec fn at_most(a: Seq<char>, b: Seq<char>) -> bool
    decreases a.len(),
{
    if a.len() == 0 {
        true
    } else if b.len() == 0 {
        false
    } else if a[0] != b[0] {
        a[0] < b[0]
    } else {
        at_most(a.drop_first(), b.drop_first())
    }
}

/// Of two texts one is at most the other.
pub(crate) proof fn lemma_at_most_total(a: Seq<char>, b: Seq<char>)
    ensures
        at_most(a, b) || at_most(b, a),
    decreases a.len(),
{
    if a.len() > 0 && b.len() > 0 && a[0] == b[0] {
        lemma_at_most_total(a.drop_first(), b.drop_first());
    }
}

/// The order of texts carries over.
pub(crate) proof fn lemma_at_most_transitive(a: Seq<char>, b: Seq<char>, c: Seq<char>)
    requires
        at_most(a, b),
        at_most(b, c),
    ensures
        at_most(a, c),
    decreases a.len(),
{
    if a.len() > 0 && b.len() > 0 && c.len() > 0 && a[0] == b[0] && b[0] == c[0] {
        lemma_at_most_transitive(a.drop_first(), b.drop_first(), c.drop_first());
    }
}

/// Whether `a` comes before or at `b`.
pub fn is_at_most(a: &str, b: &str) -> (r: bool)
    ensures
        r == at_most(a@, b@),
{
    let x = to_chars(a);
    let y = to_chars(b);
    let mut i: usize = 0;
    assert(x@.skip(0) =~= x@);
    assert(y@.skip(0) =~= y@);
    while i < x.len() && i < y.len()
        invariant
            i <= x.len(),
            i <= y.len(),
            at_most(a@, b@) == at_most(x@.skip(i as int), y@.skip(i as int)),
        decreases x.len() - i,
    {
        assert(x@.skip(i as int)[0] == x@[i as int]);
        assert(y@.skip(i as int)[0] == y@[i as int]);
        if x[i] != y[i] {
            return x[i] < y[i];
        }
        assert(x@.skip(i as int).drop_first() =~= x@.skip(i as int + 1));
        assert(y@.skip(i as int).drop_first() =~= y@.skip(i as int + 1));
        i += 1;
    }
    i == x.len()
}

/// Whether texts stand in order.
pub open spec fn in_order(v: Seq<Seq<char>>) -> bool {
    forall|i: int, j: int| 0 <= i <= j < v.len() ==> at_most(#[trigger] v[i], #[trigger] v[j])
}

/// The same texts, in order.
pub fn sort(v: Vec<String>) -> (r: Vec<String>)
    ensures
        in_order(texts(r@)),
        texts(r@).to_multiset() == texts(v@).to_multiset(),
{
    let mut r: Vec<String> = Vec::new();
    let mut i: usize = 0;
    let ghost all = texts(v@);
    assert(texts(r@) =~= all.take(0));
    while i < v.len()
        invariant
            i <= v.len(),
            r.len() == i,
            all == texts(v@),
            in_order(texts(r@)),
            texts(r@).to_multiset() == all.take(i as int).to_multiset(),
        decreases v.len() - i,
    {
        let ghost sorted = texts(r@);
        let ghost item = v@[i as int]@;
        let mut at: usize = r.len();
        while at > 0 && !is_at_most(r[at - 1].as_str(), v[i].as_str())
            invariant
                i < v.len(),
                at <= r.len(),
                item == v@[i as int]@,
                sorted == texts(r@),
                forall|k: int| at <= k < sorted.len() ==> !at_most(#[trigger] sorted[k], item),
            decreases at,
        {
            assert(sorted[at - 1] == r@[at - 1]@);
            at -= 1;
        }
        proof {
            assert(at > 0 ==> sorted[at - 1] == r@[at - 1]@);
            assert forall|k: int| 0 <= k < at implies at_most(#[trigger] sorted[k], item) by {
                lemma_at_most_transitive(sorted[k], sorted[at - 1], item);
            }
            assert forall|k: int| at <= k < sorted.len() implies at_most(
                item,
                #[trigger] sorted[k],
            ) by {
                lemma_at_most_total(sorted[k], item);
            }
            lemma_at_most_total(item, item);
        }
        r.insert(at, v[i].clone());
        proof {
            broadcast use vstd::seq_lib::group_to_multiset_ensures;

            let next = texts(r@);
            assert(next =~= sorted.insert(at as int, item));
            assert forall|a: int, b: int| 0 <= a <= b < next.len() implies at_most(
                #[trigger] next[a],
                #[trigger] next[b],
            ) by {
                if a < at {
                    assert(next[a] == sorted[a]);
                } else if a > at {
                    assert(next[a] == sorted[a - 1]);
                }
                if b < at {
                    assert(next[b] == sorted[b]);
                } else if b > at {
                    assert(next[b] == sorted[b - 1]);
                }
            }
            assert(all.take(i as int + 1) =~= all.take(i as int).push(item));
            assert(next.to_multiset() =~= sorted.to_multiset().insert(item));
        }
        i += 1;
    }
    assert(all.take(i as int) =~= all);
    r
}

/// The lower-case hexadecimal digit for a number below sixteen.
pub open spec fn hex_digit(d: int) -> char {
    if d < 10 {
        (48 + d) as u8 as char
    } else {
        (87 + d) as u8 as char
    }
}

/// The text that `String::from_utf8_lossy` decodes: the bytes as UTF-8, with a replacement
/// character for each sequence that is none.
pub uninterp spec fn lossy(bytes: Seq<u8>) -> Seq<char>;

/// `String::from_utf8_lossy`. What it puts in the place of invalid sequences is a function
/// of the bytes; valid UTF-8 is decoded as it stands, and no bytes at all are no text.
#[verifier::external_body]
pub(crate) fn from_utf8_lossy(bytes: &Vec<u8>) -> (r: String)
    ensures
        r@ == lossy(bytes@),
        vstd::utf8::valid_utf8(bytes@) ==> r@ == vstd::utf8::decode_utf8(bytes@),
        bytes@.len() == 0 <==> r@.len() == 0,
{
    String::from_utf8_lossy(bytes).into_owned()
}

/// A text without the `c`s at its end.
pub open spec fn without_trailing(s: Seq<char>, c: char) -> Seq<char>
    decreases s.len(),
{
    if s.len() > 0 && s.last() == c {
        without_trailing(s.drop_last(), c)
    } else {
        s
    }
}

/// A text without the `c`s at its end.
pub fn trim_end_matches(s: &str, c: char) -> (r: String)
    ensures
        r@ == without_trailing(s@, c),
{
    let v = to_chars(s);
    let mut end: usize = v.len();
    assert(v@.take(end as int) =~= v@);
    while end > 0 && v[end - 1] == c
        invariant
            end <= v.len(),
            without_trailing(v@, c) == without_trailing(v@.take(end as int), c),
        decreases end,
    {
        assert(v@.take(end as int).drop_last() =~= v@.take(end - 1));
        end -= 1;
    }
    assert(v@.take(end as int) =~= v@.subrange(0, end as int));
    from_chars(&v, 0, end)
}

/// An ASCII letter in lower case; any other character as it is.
pub open spec fn ascii_lower(c: char) -> char {
    if 'A' <= c && c <= 'Z' {
        ((c as u8) + 32u8) as u8 as char
    } else {
        c
    }
}

/// A text with its ASCII letters in lower case.
pub open spec fn ascii_lowered(s: Seq<char>) -> Seq<char> {
    s.map_values(|c: char| ascii_lower(c))
}

/// A text with its ASCII letters in lower case.
pub fn to_ascii_lowercase(s: &str) -> (r: String)
    ensures
        r@ == ascii_lowered(s@),
{
    let v = to_chars(s);
    let mut r = String::new();
    let mut i: usize = 0;
    assert(r@ =~= ascii_lowered(v@.take(0)));
    while i < v.len()
        invariant
            i <= v.len(),
            r@ == ascii_lowered(v@.take(i as int)),
        decreases v.len() - i,
    {
        let c = v[i];
        if 'A' <= c && c <= 'Z' {
            r.push(((c as u8) + 32u8) as char);
        } else {
            r.push(c);
        }
        i += 1;
        assert(r@ =~= ascii_lowered(v@.take(i as int)));
    }
    assert(v@.take(i as int) =~= v@);
    r
}

/// Where `p` first stands in `s`, at `i` or after.
pub open spec fn first_from(s: Seq<char>, p: Seq<char>, i: int) -> Option<int>
    decreases s.len() + 1 - i,
{
    if i < 0 || i + p.len() > s.len() {
        None
    } else if occurs_at(s, p, i) {
        Some(i)
    } else {
        first_from(s, p, i + 1)
    }
}

/// Where `p` first stands in `s`.
pub open spec fn first_of(s: Seq<char>, p: Seq<char>) -> Option<int> {
    first_from(s, p, 0)
}

/// The first place is a place, and no place comes before it.
pub(crate) proof fn lemma_first_from(s: Seq<char>, p: Seq<char>, i: int)
    requires
        0 <= i,
    ensures
        match first_from(s, p, i) {
            Some(k) => i <= k && occurs_at(s, p, k) && (forall|j: int|
                i <= j < k ==> !occurs_at(s, p, j)),
            None => forall|j: int| i <= j ==> !occurs_at(s, p, j),
        },
    decreases s.len() + 1 - i,
{
    if i + p.len() <= s.len() && !occurs_at(s, p, i) {
        lemma_first_from(s, p, i + 1);
    }
}

/// `str::find` with a text, counted in characters.
pub fn position(s: &Vec<char>, p: &str) -> (r: Option<usize>)
    ensures
        match first_of(s@, p@) {
            Some(i) => r is Some && r->0 == i,
            None => r is None,
        },
        r is Some ==> r->0 + p@.len() <= s.len(),
{
    let w = to_chars(p);
    proof {
        lemma_first_from(s@, p@, 0);
    }
    let r = find(s, &w);
    proof {
        if let Some(i) = r {
            assert(occurs_at(s@, p@, i as int));
        }
    }
    r
}

/// The text before the first `p`, or all of it where there is none.
pub open spec fn up_to(s: Seq<char>, p: Seq<char>) -> Seq<char> {
    match first_of(s, p) {
        Some(i) => s.take(i),
        None => s,
    }
}

/// The text before the first `p`, or all of it where there is none.
pub fn before(s: &str, p: &str) -> (r: String)
    ensures
        r@ == up_to(s@, p@),
{
    let v = to_chars(s);
    let end = match position(&v, p) {
        Some(i) => i,
        None => v.len(),
    };
    assert(v@.subrange(0, end as int) =~= up_to(s@, p@));
    from_chars(&v, 0, end)
}

/// The texts of some pairs of strings.
pub open spec fn pairs(v: Seq<(String, String)>) -> Seq<(Seq<char>, Seq<char>)> {
    v.map_values(|p: (String, String)| (p.0@, p.1@))
}

/// Adds a pair.
pub fn push_pair(v: &mut Vec<(String, String)>, a: &str, b: &str)
    ensures
        pairs(final(v)@) == pairs(old(v)@).push((a@, b@)),
{
    v.push((copy(a), copy(b)));
    assert(pairs(v@) =~= pairs(old(v)@).push((a@, b@)));
}

/// No pairs.
pub fn no_pairs() -> (r: Vec<(String, String)>)
    ensures
        pairs(r@) == Seq::<(Seq<char>, Seq<char>)>::empty(),
{
    let r = Vec::new();
    assert(pairs(r@) =~= Seq::empty());
    r
}

/// Adds some pairs.
pub fn append_pairs(v: &mut Vec<(String, String)>, more: &Vec<(String, String)>)
    ensures
        pairs(final(v)@) == pairs(old(v)@) + pairs(more@),
{
    let ghost start = pairs(v@);
    let ghost added = pairs(more@);
    let mut i: usize = 0;
    assert(start + added.take(0) =~= start);
    while i < more.len()
        invariant
            i <= more.len(),
            added == pairs(more@),
            pairs(v@) == start + added.take(i as int),
        decreases more.len() - i,
    {
        push_pair(v, more[i].0.as_str(), more[i].1.as_str());
        i += 1;
        assert(start + added.take(i as int) =~= (start + added.take(i - 1)).push(added[i - 1]));
    }
    assert(added.take(i as int) =~= added);
}

/// Adds a text.
pub fn push_text(v: &mut Vec<String>, s: &str)
    ensures
        texts(final(v)@) == texts(old(v)@).push(s@),
{
    v.push(copy(s));
    assert(texts(v@) =~= texts(old(v)@).push(s@));
}

/// No texts.
pub fn no_texts() -> (r: Vec<String>)
    ensures
        texts(r@) == Seq::<Seq<char>>::empty(),
{
    let r = Vec::new();
    assert(texts(r@) =~= Seq::empty());
    r
}

/// A copy of some texts.
pub fn copy_texts(v: &Vec<String>) -> (r: Vec<String>)
    ensures
        texts(r@) == texts(v@),
{
    let mut r = no_texts();
    append_texts(&mut r, v);
    assert(texts(r@) =~= texts(v@));
    r
}

/// Adds some texts.
pub fn append_texts(v: &mut Vec<String>, more: &Vec<String>)
    ensures
        texts(final(v)@) == texts(old(v)@) + texts(more@),
{
    let ghost start = texts(v@);
    let ghost added = texts(more@);
    let mut i: usize = 0;
    assert(start + added.take(0) =~= start);
    while i < more.len()
        invariant
            i <= more.len(),
            added == texts(more@),
            texts(v@) == start + added.take(i as int),
        decreases more.len() - i,
    {
        push_text(v, more[i].as_str());
        i += 1;
        assert(start + added.take(i as int) =~= (start + added.take(i - 1)).push(added[i - 1]));
    }
    assert(added.take(i as int) =~= added);
}

/// A copy of a text that may be missing.
pub fn copy_opt(s: &Option<String>) -> (r: Option<String>)
    ensures
        opt(r) == opt(*s),
{
    match s {
        Some(s) => Some(s.clone()),
        None => None,
    }
}

// Laws.

/// What stands between separators holds none.
pub proof fn pieces_hold_no_separator(s: Seq<char>, c: char)
    ensures
        forall|i: int| 0 <= i < split_on(s, c).len() ==> !(#[trigger] split_on(s, c)[i]).contains(c),
    decreases s.len(),
{
    if s.len() > 0 {
        let init = s.drop_last();
        pieces_hold_no_separator(init, c);
        lemma_split_nonempty(init, c);
        let before = split_on(init, c);
        let all = split_on(s, c);
        assert forall|i: int| 0 <= i < all.len() implies !(#[trigger] all[i]).contains(c) by {
            if i < before.len() - 1 {
                assert(all[i] == before[i]);
            } else if s.last() == c {
                if i == before.len() - 1 {
                    assert(all[i] == before[i]);
                }
            } else {
                assert(!before[i].contains(c));
                assert(all[i] =~= before[i].push(s.last()));
                assert forall|k: int| 0 <= k < all[i].len() implies all[i][k] != c by {
                    if k < before[i].len() {
                        assert(before[i][k] != c);
                    }
                }
            }
        }
    }
}

/// Trimming takes white space from both ends, all of it, and nothing else.
pub proof fn trimming_takes_the_white_ends(s: Seq<char>)
    ensures
        exists|i: int, j: int|
            {
                &&& 0 <= i <= j <= s.len()
                &&& trimmed(s) == #[trigger] s.subrange(i, j)
                &&& forall|k: int| 0 <= k < i || j <= k < s.len() ==> white_space(#[trigger] s[k])
                &&& i < j ==> !white_space(s[i]) && !white_space(s[j - 1])
            },
        forall|k: int|
            trimmed_end(s).len() <= k < s.len() ==> white_space(#[trigger] s[k]),
        trimmed_end(s).len() <= s.len() && trimmed_end(s) == s.take(trimmed_end(s).len() as int),
        trimmed_end(s).len() > 0 ==> !white_space(trimmed_end(s).last()),
{
    lemma_trim_starts(s);
    let start = trimmed_start(s);
    let i = s.len() - start.len();
    lemma_trim_ends(start);
    lemma_trim_ends(s);
    let j = i + trimmed(s).len();
    assert(trimmed(s) =~= s.subrange(i, j));
    assert forall|k: int| 0 <= k < i || j <= k < s.len() implies white_space(#[trigger] s[k]) by {
        if j <= k {
            assert(start[k - i] == s[k]);
        }
    }
    if i < j {
        assert(s[i] == start[0]);
        assert(s[j - 1] == trimmed(s).last());
    }
}

/// What is trimmed at the start is a suffix that begins visibly.
pub(crate) proof fn lemma_trim_starts(s: Seq<char>)
    ensures
        trimmed_start(s).len() <= s.len(),
        trimmed_start(s) == s.skip(s.len() - trimmed_start(s).len()),
        trimmed_start(s).len() > 0 ==> !white_space(trimmed_start(s)[0]),
        forall|i: int| 0 <= i < s.len() - trimmed_start(s).len() ==> white_space(#[trigger] s[i]),
    decreases s.len(),
{
    if s.len() > 0 && white_space(s[0]) {
        let rest = s.drop_first();
        lemma_trim_starts(rest);
        let n = s.len() - trimmed_start(s).len();
        assert(rest.skip(n - 1) =~= s.skip(n));
        assert forall|i: int| 0 <= i < n implies white_space(#[trigger] s[i]) by {
            if i > 0 {
                assert(rest[i - 1] == s[i]);
            }
        }
    } else {
        assert(s.skip(0) =~= s);
    }
}

/// What can be seen of a text: its characters that are not white space.
pub open spec fn seen(s: Seq<char>) -> Seq<char> {
    s.filter(|c: char| !white_space(c))
}

/// What can be seen of two texts together.
pub(crate) proof fn lemma_seen_add(a: Seq<char>, b: Seq<char>)
    ensures
        seen(a + b) == seen(a) + seen(b),
{
    Seq::filter_distributes_over_add(a, b, |c: char| !white_space(c));
}

/// What can be seen of a text with one more character.
pub(crate) proof fn lemma_seen_push(s: Seq<char>, c: char)
    ensures
        seen(s.push(c)) == if white_space(c) {
            seen(s)
        } else {
            seen(s).push(c)
        },
{
    reveal(Seq::filter);
    assert(s.push(c).drop_last() =~= s);
}

/// What can be seen of nothing.
pub(crate) proof fn lemma_seen_nothing()
    ensures
        seen(Seq::<char>::empty()) == Seq::<char>::empty(),
{
    reveal(Seq::filter);
}

/// All of what can be seen can be seen.
pub(crate) proof fn lemma_seen_again(s: Seq<char>)
    ensures
        seen(seen(s)) == seen(s),
    decreases s.len(),
{
    lemma_seen_nothing();
    if s.len() > 0 {
        lemma_seen_again(s.drop_last());
        lemma_seen_push(s.drop_last(), s.last());
        assert(s.drop_last().push(s.last()) =~= s);
        lemma_seen_push(seen(s.drop_last()), s.last());
    } else {
        assert(s =~= Seq::<char>::empty());
    }
}

/// The words of a text are all that can be seen of it: each is a run of visible characters, and
/// one after the other they are the visible characters of the text.
pub proof fn words_are_all_that_is_seen(s: Seq<char>)
    ensures
        words_of(s).flatten() == seen(s),
        forall|i: int|
            0 <= i < words_of(s).len() ==> {
                &&& (#[trigger] words_of(s)[i]).len() > 0
                &&& forall|k: int|
                    0 <= k < words_of(s)[i].len() ==> !white_space(#[trigger] words_of(s)[i][k])
            },
        words_of(s).len() > 0 <==> seen(s).len() > 0,
    decreases s.len(),
{
    lemma_words(s);
    if words_of(s).len() > 0 {
        let first = words_of(s)[0];
        assert(words_of(s).flatten() == first + words_of(s).drop_first().flatten());
    }
}

proof fn lemma_words(s: Seq<char>)
    ensures
        words_of(s).flatten() == seen(s),
        forall|i: int|
            0 <= i < words_of(s).len() ==> {
                &&& (#[trigger] words_of(s)[i]).len() > 0
                &&& forall|k: int|
                    0 <= k < words_of(s)[i].len() ==> !white_space(#[trigger] words_of(s)[i][k])
            },
        s.len() > 0 && !white_space(s.last()) ==> words_of(s).len() > 0,
    decreases s.len(),
{
    if s.len() == 0 {
        lemma_seen_nothing();
        assert(words_of(s).flatten() =~= Seq::<char>::empty());
        assert(s =~= Seq::<char>::empty());
    } else {
        let init = s.drop_last();
        lemma_words(init);
        lemma_seen_push(init, s.last());
        assert(init.push(s.last()) =~= s);
        let before = words_of(init);
        let all = words_of(s);
        if white_space(s.last()) {
        } else if s.len() == 1 || white_space(s[s.len() - 2]) {
            before.lemma_flatten_push(seq![s.last()]);
            assert(seen(init) + seq![s.last()] =~= seen(init).push(s.last()));
        } else {
            assert(init.last() == s[s.len() - 2]);
            let word = before.last();
            assert(before.drop_last().push(word) =~= before);
            before.drop_last().lemma_flatten_push(word);
            before.drop_last().lemma_flatten_push(word.push(s.last()));
            assert(all.flatten() =~= seen(init).push(s.last()));
            assert forall|i: int| 0 <= i < all.len() implies {
                &&& (#[trigger] all[i]).len() > 0
                &&& forall|k: int| 0 <= k < all[i].len() ==> !white_space(#[trigger] all[i][k])
            } by {
                if i < all.len() - 1 {
                    assert(all[i] == before[i]);
                } else {
                    assert(before[before.len() - 1] == word);
                }
            }
        }
    }
}

/// Joined texts are the texts in order, each two with the separator between them.
pub proof fn joined_texts_are_the_texts(parts: Seq<Seq<char>>, sep: Seq<char>)
    ensures
        joined(parts, Seq::empty()) == parts.flatten(),
        parts.len() > 0 ==> joined(parts, sep) == parts[0] + parts.drop_first().map_values(
            |part: Seq<char>| sep + part,
        ).flatten(),
    decreases parts.len(),
{
    let behind = |part: Seq<char>| sep + part;
    if parts.len() == 0 {
        assert(joined(parts, Seq::empty()) =~= parts.flatten());
    } else if parts.len() == 1 {
        assert(parts =~= seq![parts[0]]);
        parts.lemma_flatten_one_element();
        assert(parts.drop_first().map_values(behind) =~= Seq::empty());
        assert(joined(parts, sep) =~= parts[0] + parts.drop_first().map_values(behind).flatten());
    } else {
        let init = parts.drop_last();
        joined_texts_are_the_texts(init, sep);
        assert(init.push(parts.last()) =~= parts);
        init.lemma_flatten_push(parts.last());
        assert(joined(parts, Seq::empty()) =~= parts.flatten());
        let rest = init.drop_first().map_values(behind);
        rest.lemma_flatten_push(sep + parts.last());
        assert(parts.drop_first().map_values(behind) =~= rest.push(sep + parts.last()));
        assert(joined(parts, sep) =~= parts[0] + parts.drop_first().map_values(behind).flatten());
    }
}

/// The number that some digits are read as.
pub open spec fn read_digits(s: Seq<char>) -> int {
    s.fold_left(0int, |n: int, c: char| n * 10 + (c as int - '0' as int))
}

/// A numeral is read as its number: it is digits only, and none too many.
pub proof fn a_numeral_reads_back(n: nat)
    ensures
        read_digits(decimal_of(n)) == n,
        forall|i: int|
            0 <= i < decimal_of(n).len() ==> '0' <= #[trigger] decimal_of(n)[i] <= '9',
        decimal_of(n).len() > 0,
        decimal_of(n).len() > 1 ==> decimal_of(n)[0] != '0',
        n > 0 ==> decimal_of(n)[0] != '0',
    decreases n,
{
    reveal_with_fuel(Seq::fold_left, 2);
    let f = |n: int, c: char| n * 10 + (c as int - '0' as int);
    if n < 10 {
        assert(decimal_of(n).drop_last() =~= Seq::<char>::empty());
        assert(decimal_of(n).last() == digit(n));
    } else {
        a_numeral_reads_back(n / 10);
        assert(decimal_of(n).drop_last() =~= decimal_of(n / 10));
        assert(decimal_of(n).last() == digit(n % 10));
        assert(decimal_of(n)[0] == decimal_of(n / 10)[0]);
        assert(decimal_of(n).fold_left(0int, f) == f(
            decimal_of(n / 10).fold_left(0int, f),
            digit(n % 10),
        ));
    }
}

/// A word stands in the text between white space or the text's ends, and the words stand in the
/// order they are in.
pub proof fn words_stand_between_white_space(s: Seq<char>) -> (starts: Seq<int>)
    ensures
        starts.len() == words_of(s).len(),
        forall|i: int|
            0 <= i < starts.len() ==> {
                let end = #[trigger] starts[i] + words_of(s)[i].len();
                &&& 0 <= starts[i] && end <= s.len()
                &&& words_of(s)[i] == s.subrange(starts[i], end)
                &&& starts[i] > 0 ==> white_space(s[starts[i] - 1])
                &&& end < s.len() ==> white_space(s[end])
            },
        forall|i: int, j: int| 0 <= i < j < starts.len() ==> starts[i] < starts[j],
        s.len() > 0 && !white_space(s.last()) ==> starts.len() > 0 && starts.last() + words_of(
            s,
        ).last().len() == s.len(),
    decreases s.len(),
{
    if s.len() == 0 {
        Seq::empty()
    } else {
        let init = s.drop_last();
        let last = s.last();
        let before = words_of(init);
        let all = words_of(s);
        let old_starts = words_stand_between_white_space(init);
        lemma_words(init);
        lemma_words(s);
        assert(s.len() > 1 ==> init.last() == s[s.len() - 2]);
        let fresh = !white_space(last) && (s.len() == 1 || white_space(s[s.len() - 2]));
        let starts = if fresh {
            old_starts.push(s.len() - 1)
        } else {
            old_starts
        };
        assert forall|i: int| 0 <= i < starts.len() implies {
            let end = #[trigger] starts[i] + all[i].len();
            &&& 0 <= starts[i] && end <= s.len()
            &&& all[i] == s.subrange(starts[i], end)
            &&& starts[i] > 0 ==> white_space(s[starts[i] - 1])
            &&& end < s.len() ==> white_space(s[end])
        } by {
            if i < old_starts.len() {
                let end = old_starts[i] + before[i].len();
                assert(before[i] == init.subrange(old_starts[i], end));
                assert(old_starts[i] > 0 ==> init[old_starts[i] - 1] == s[old_starts[i] - 1]);
                if white_space(last) || fresh {
                    assert(all[i] == before[i]);
                    assert(s.subrange(starts[i], end) =~= init.subrange(starts[i], end));
                    if end < init.len() {
                        assert(init[end] == s[end]);
                    } else {
                        if fresh && s.len() > 1 {
                            assert(before[i].last() == init.last());
                            assert(!white_space(before[i][before[i].len() - 1]));
                        }
                    }
                } else if i < old_starts.len() - 1 {
                    assert(all[i] == before[i]);
                    assert(s.subrange(starts[i], end) =~= init.subrange(starts[i], end));
                    if end >= init.len() {
                        let next = old_starts[i + 1];
                        assert(old_starts[i] < next);
                        assert(before[i + 1] == init.subrange(next, next + before[i + 1].len()));
                        assert(before[i + 1].len() > 0);
                        assert(white_space(init[next - 1]));
                        assert(before[i][next - 1 - old_starts[i]] == init[next - 1]);
                        assert(false);
                    } else {
                        assert(init[end] == s[end]);
                    }
                } else {
                    assert(all[i] =~= before[i].push(last));
                    assert(all[i] =~= s.subrange(starts[i], end + 1));
                }
            } else {
                assert(all[i] =~= seq![last]);
                assert(s.subrange(s.len() - 1, s.len() as int) =~= seq![last]);
            }
        }
        if fresh {
            assert forall|i: int, j: int| 0 <= i < j < starts.len() implies starts[i]
                < starts[j] by {
                assert(starts[i] == old_starts[i]);
                assert(before[i].len() > 0);
            }
        }
        starts
    }
}

} // verus!
