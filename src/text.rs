//! Small string helpers shared by the parsers and the correlator.
use vstd::prelude::*;
use vstd::std_specs::iter::IteratorSpec;

verus! {

/// What `str::to_uppercase` returns for a sequence of characters.
pub uninterp spec fn upper_of(s: Seq<char>) -> Seq<char>;

/// What `char::to_ascii_uppercase` gives: ASCII letters upper-cased, others kept.
pub open spec fn ascii_upper(c: char) -> char {
    if 'a' <= c && c <= 'z' {
        ((c as u32) - 32) as char
    } else {
        c
    }
}

/// The ASCII upper case of a text.
pub open spec fn ascii_upper_text(s: Seq<char>) -> Seq<char> {
    s.map_values(|c: char| ascii_upper(c))
}

pub open spec fn all_ascii(s: Seq<char>) -> bool {
    forall|i: int| 0 <= i < s.len() ==> (s[i] as u32) < 0x80
}

/// Relies on `str::to_uppercase`: the result depends on the characters alone, and an ASCII
/// letter's upper case is its ASCII upper case, while other ASCII characters have none.
#[verifier::external_body]
pub(crate) fn to_upper(s: &str) -> (r: String)
    ensures
        r@ == upper_of(s@),
        all_ascii(s@) ==> r@ == ascii_upper_text(s@),
{
    s.to_uppercase()
}

/// Compares a string with a piece of text.
pub fn eq_str(a: &String, b: &str) -> (r: bool)
    ensures
        r == (a@ == b@),
{
    let c = b.to_owned();
    *a == c
}

/// The character sequences of a list of strings.
pub open spec fn text_views(v: Seq<String>) -> Seq<Seq<char>> {
    v.map_values(|x: String| x@)
}

/// Joins pieces with a tab between each two of them.
pub open spec fn tab_join(parts: Seq<Seq<char>>) -> Seq<char>
    decreases parts.len(),
{
    if parts.len() == 0 {
        Seq::empty()
    } else if parts.len() == 1 {
        parts[0]
    } else {
        tab_join(parts.drop_last()) + seq!['\t'] + parts.last()
    }
}

pub open spec fn join2(a: Seq<char>, b: Seq<char>) -> Seq<char> {
    a + seq!['\t'] + b
}

/// `a \t b`
pub fn concat_tab(a: &str, b: &str) -> (r: String)
    ensures
        r@ == join2(a@, b@),
{
    let s = a.to_owned();
    let t = s.concat("\t");
    proof {
        reveal_strlit("\t");
    }
    let u = t.concat(b);
    u
}


/// The characters of a string, in one pass.
pub fn chars_of(s: &str) -> (r: Vec<char>)
    ensures
        r@ == s@,
{
    broadcast use vstd::string::axiom_spec_iter, vstd::string::next_postcondition;

    let mut v: Vec<char> = Vec::new();
    let mut it = s.chars();
    loop
        invariant
            v@ + it.remaining() == s@,
            it.decrease() is Some,
        ensures
            v@ == s@,
        decreases it.decrease()->0,
    {
        match it.next() {
            Some(c) => {
                v.push(c);
            },
            None => {
                assert(it.remaining().len() == 0);
                assert(v@ + it.remaining() =~= v@);
                break ;
            },
        }
    }
    v
}

/// The characters of `s` from `from` up to `to`.
pub fn slice_text(s: &str, from: usize, to: usize) -> (r: String)
    requires
        from <= to <= s@.len(),
    ensures
        r@ == s@.subrange(from as int, to as int),
{
    s.substring_char(from, to).to_owned()
}

/// The position of the last occurrence of `c`.
pub open spec fn last_index_of(s: Seq<char>, c: char) -> Option<int>
    decreases s.len(),
{
    if s.len() == 0 {
        None
    } else if s.last() == c {
        Some(s.len() - 1)
    } else {
        last_index_of(s.drop_last(), c)
    }
}

pub fn find_last(s: &Vec<char>, c: char) -> (r: Option<usize>)
    ensures
        match r {
            Some(i) => last_index_of(s@, c) == Some(i as int) && i < s@.len(),
            None => last_index_of(s@, c).is_none(),
        },
{
    let mut k: usize = s.len();
    assert(s@.take(k as int) =~= s@);
    while k > 0
        invariant
            k <= s.len(),
            last_index_of(s@, c) == last_index_of(s@.take(k as int), c),
        decreases k,
    {
        if s[k - 1] == c {
            return Some(k - 1);
        }
        assert(s@.take(k as int).drop_last() =~= s@.take(k - 1));
        k -= 1;
    }
    None
}

/// The position of the first occurrence of `c`.
pub open spec fn first_index_of(s: Seq<char>, c: char) -> Option<int>
    decreases s.len(),
{
    if s.len() == 0 {
        None
    } else if s[0] == c {
        Some(0)
    } else {
        match first_index_of(s.drop_first(), c) {
            Some(i) => Some(i + 1),
            None => None,
        }
    }
}

/// `s` cut at each occurrence of `sep`.
pub open spec fn split_on(s: Seq<char>, sep: char) -> Seq<Seq<char>>
    decreases s.len(),
{
    match first_index_of(s, sep) {
        Some(i) => if 0 <= i < s.len() {
            seq![s.take(i)] + split_on(s.skip(i + 1), sep)
        } else {
            seq![s]
        },
        None => seq![s],
    }
}

proof fn lemma_first_index(s: Seq<char>, c: char, j: int)
    requires
        0 <= j <= s.len(),
        forall|q: int| 0 <= q < j ==> s[q] != c,
    ensures
        j < s.len() && s[j] == c ==> first_index_of(s, c) == Some(j),
        j == s.len() ==> first_index_of(s, c).is_none(),
    decreases j,
{
    if j > 0 {
        lemma_first_index(s.drop_first(), c, j - 1);
    } else if s.len() > 0 && s[0] != c {
        // j == 0 == len is the only remaining case with content
    }
}

/// Cuts `s` at each tab.
pub fn split_tabs(s: &str) -> (r: Vec<String>)
    ensures
        text_views(r@) == split_on(s@, '\t'),
{
    let chars = chars_of(s);
    let n = chars.len();
    let mut fields: Vec<String> = Vec::new();
    let mut start: usize = 0;
    let mut i: usize = 0;
    assert(s@.skip(0) =~= s@);
    assert(text_views(fields@) =~= Seq::<Seq<char>>::empty());
    assert(Seq::<Seq<char>>::empty() + split_on(s@, '\t') =~= split_on(s@, '\t'));
    while i < n
        invariant
            n == chars@.len(),
            chars@ == s@,
            start <= i <= n,
            split_on(s@, '\t') == text_views(fields@) + split_on(s@.skip(start as int), '\t'),
            forall|q: int| start <= q < i ==> s@[q] != '\t',
        decreases n - i,
    {
        if chars[i] == '\t' {
            let f = slice_text(s, start, i);
            proof {
                let rest = s@.skip(start as int);
                lemma_first_index(rest, '\t', i - start);
                assert(rest.take(i - start) =~= s@.subrange(start as int, i as int));
                assert(rest.skip(i - start + 1) =~= s@.skip(i + 1));
            }
            let ghost before = fields@;
            fields.push(f);
            assert(text_views(fields@) =~= text_views(before) + seq![f@]);
            start = i + 1;
        }
        i += 1;
    }
    let last = slice_text(s, start, n);
    proof {
        let rest = s@.skip(start as int);
        lemma_first_index(rest, '\t', n - start);
        assert(rest =~= s@.subrange(start as int, n as int));
    }
    let ghost before = fields@;
    fields.push(last);
    assert(text_views(fields@) =~= text_views(before) + seq![last@]);
    fields
}

/// Cuts `s` at each line break.
pub fn split_lines(s: &str) -> (r: Vec<String>)
    ensures
        text_views(r@) == split_on(s@, '\n'),
{
    let chars = chars_of(s);
    let n = chars.len();
    let mut fields: Vec<String> = Vec::new();
    let mut start: usize = 0;
    let mut i: usize = 0;
    assert(s@.skip(0) =~= s@);
    assert(text_views(fields@) =~= Seq::<Seq<char>>::empty());
    assert(Seq::<Seq<char>>::empty() + split_on(s@, '\n') =~= split_on(s@, '\n'));
    while i < n
        invariant
            n == chars@.len(),
            chars@ == s@,
            start <= i <= n,
            split_on(s@, '\n') == text_views(fields@) + split_on(s@.skip(start as int), '\n'),
            forall|q: int| start <= q < i ==> s@[q] != '\n',
        decreases n - i,
    {
        if chars[i] == '\n' {
            let f = slice_text(s, start, i);
            proof {
                let rest = s@.skip(start as int);
                lemma_first_index(rest, '\n', i - start);
                assert(rest.take(i - start) =~= s@.subrange(start as int, i as int));
                assert(rest.skip(i - start + 1) =~= s@.skip(i + 1));
            }
            let ghost before = fields@;
            fields.push(f);
            assert(text_views(fields@) =~= text_views(before) + seq![f@]);
            start = i + 1;
        }
        i += 1;
    }
    let last = slice_text(s, start, n);
    proof {
        let rest = s@.skip(start as int);
        lemma_first_index(rest, '\n', n - start);
        assert(rest =~= s@.subrange(start as int, n as int));
    }
    let ghost before = fields@;
    fields.push(last);
    assert(text_views(fields@) =~= text_views(before) + seq![last@]);
    fields
}

pub open spec fn opt_text(o: Option<String>) -> Option<Seq<char>> {
    match o {
        Some(s) => Some(s@),
        None => None,
    }
}

/// Whether `v` holds a string equal to `s`.
pub fn contains_text(v: &Vec<String>, s: &String) -> (r: bool)
    ensures
        r == text_views(v@).contains(s@),
{
    let mut i: usize = 0;
    while i < v.len()
        invariant
            i <= v.len(),
            forall|q: int| 0 <= q < i ==> (#[trigger] v@[q])@ != s@,
        decreases v.len() - i,
    {
        if v[i] == *s {
            assert(text_views(v@)[i as int] == s@);
            return true;
        }
        i += 1;
    }
    proof {
        if text_views(v@).contains(s@) {
            let q = choose|q: int| 0 <= q < v@.len() && #[trigger] text_views(v@)[q] == s@;
            assert(v@[q]@ == s@);
        }
    }
    false
}

/// Whether `sub` occurs in `s`.
pub open spec fn has_substring(s: Seq<char>, sub: Seq<char>) -> bool {
    exists|i: int| 0 <= i && i + sub.len() <= s.len() && #[trigger] s.subrange(i, i + sub.len()) == sub
}

fn occurs_at(s: &Vec<char>, sub: &Vec<char>, i: usize) -> (r: bool)
    requires
        i + sub@.len() <= s@.len(),
    ensures
        r == (s@.subrange(i as int, i + sub@.len()) == sub@),
{
    let sl = s.len();
    let mut j: usize = 0;
    while j < sub.len()
        invariant
            sl == s@.len(),
            i + sub@.len() <= s@.len(),
            j <= sub.len(),
            forall|q: int| 0 <= q < j ==> s@[i + q] == sub@[q],
        decreases sub.len() - j,
    {
        assert(i + j < s@.len());
        if s[i + j] != sub[j] {
            assert(s@.subrange(i as int, i + sub@.len())[j as int] != sub@[j as int]);
            return false;
        }
        j += 1;
    }
    assert(s@.subrange(i as int, i + sub@.len()) =~= sub@);
    true
}

/// Whether `sub` occurs in `s`.
pub fn contains_str(s: &str, sub: &str) -> (r: bool)
    ensures
        r == has_substring(s@, sub@),
{
    let cs = chars_of(s);
    let ss = chars_of(sub);
    if ss.len() > cs.len() {
        return false;
    }
    if ss.len() == 0 {
        assert(s@.subrange(0, 0 + sub@.len() as int) =~= sub@);
        return true;
    }
    let end = cs.len() - ss.len() + 1;
    let mut i: usize = 0;
    while i < end
        invariant
            cs@ == s@,
            ss@ == sub@,
            end == cs@.len() - ss@.len() + 1,
            i <= end,
            forall|q: int| 0 <= q < i ==> #[trigger] s@.subrange(q, q + sub@.len()) != sub@,
        decreases end - i,
    {
        if occurs_at(&cs, &ss, i) {
            return true;
        }
        i += 1;
    }
    false
}
} // verus!
