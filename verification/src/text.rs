//! Text as sequences of characters: the helpers every other module builds its
//! labels, names and messages from.
use vstd::prelude::*;

verus! {

/// The characters with the Unicode `White_Space` property.
pub open spec fn white(c: char) -> bool {
    ||| '\t' <= c <= '\r'
    ||| c == ' '
    ||| c == '\u{85}'
    ||| c == '\u{a0}'
    ||| c == '\u{1680}'
    ||| '\u{2000}' <= c <= '\u{200a}'
    ||| c == '\u{2028}'
    ||| c == '\u{2029}'
    ||| c == '\u{202f}'
    ||| c == '\u{205f}'
    ||| c == '\u{3000}'
}

/// `char::is_whitespace`: the Unicode `White_Space` property of one character.
pub assume_specification[ char::is_whitespace ](c: char) -> (r: bool)
    ensures
        r == white(c),
;

/// Whether `char::is_alphanumeric` holds of a character beyond ASCII.
pub uninterp spec fn wide_letter_or_digit(c: char) -> bool;

/// The characters of ASCII.
pub open spec fn ascii(c: char) -> bool {
    '\0' <= c <= '\u{7f}'
}

/// The letters and digits of ASCII.
pub open spec fn ascii_letter_or_digit(c: char) -> bool {
    'a' <= c <= 'z' || 'A' <= c <= 'Z' || '0' <= c <= '9'
}

/// Letters and digits.
pub open spec fn letter_or_digit(c: char) -> bool {
    if ascii(c) {
        ascii_letter_or_digit(c)
    } else {
        wide_letter_or_digit(c)
    }
}

/// `char::is_alphanumeric`: the Unicode `Alphabetic` or `Numeric` property of
/// one character, which in ASCII the letters and the digits have.
pub assume_specification[ char::is_alphanumeric ](c: char) -> (r: bool)
    ensures
        r == if ascii(c) {
            ascii_letter_or_digit(c)
        } else {
            wide_letter_or_digit(c)
        },
;

/// What `str::to_lowercase` makes of a text that is not all ASCII.
pub uninterp spec fn wide_lowercase(s: Seq<char>) -> Seq<char>;

/// A text of ASCII characters alone.
pub open spec fn all_ascii(s: Seq<char>) -> bool {
    forall|i: int| 0 <= i < s.len() ==> ascii(#[trigger] s[i])
}

/// A text in lower case.
pub open spec fn lowercase(s: Seq<char>) -> Seq<char> {
    if all_ascii(s) {
        s.map_values(|c: char| ascii_lower_char(c))
    } else {
        wide_lowercase(s)
    }
}

/// `str::to_lowercase`: the Unicode lowercase mapping of a text, which changes
/// the capital letters alone in ASCII.
#[verifier::external_body]
pub(crate) fn to_lower(s: &str) -> (r: String)
    ensures
        r@ == if all_ascii(s@) {
            s@.map_values(|c: char| ascii_lower_char(c))
        } else {
            wide_lowercase(s@)
        },
{
    s.to_lowercase()
}

/// `String::push`: one character is appended.
pub assume_specification[ String::push ](s: &mut String, c: char)
    ensures
        final(s)@ == old(s)@.push(c),
;

// --- texts as sequences -----------------------------------------------------

/// `s` without the white characters it starts with.
pub open spec fn trimmed_start(s: Seq<char>) -> Seq<char>
    decreases s.len(),
{
    if s.len() > 0 && white(s[0]) {
        trimmed_start(s.subrange(1, s.len() as int))
    } else {
        s
    }
}

/// `s` without the white characters it ends with.
pub open spec fn trimmed_end(s: Seq<char>) -> Seq<char>
    decreases s.len(),
{
    if s.len() > 0 && white(s.last()) {
        trimmed_end(s.drop_last())
    } else {
        s
    }
}

/// `s` without white characters at either end.
pub open spec fn trimmed(s: Seq<char>) -> Seq<char> {
    trimmed_end(trimmed_start(s))
}

/// `s` without the characters `c` it ends with.
pub open spec fn without_trailing(s: Seq<char>, c: char) -> Seq<char>
    decreases s.len(),
{
    if s.len() > 0 && s.last() == c {
        without_trailing(s.drop_last(), c)
    } else {
        s
    }
}

/// `s` without the texts `p` it ends with; `p` is not empty.
pub open spec fn without_suffixes(s: Seq<char>, p: Seq<char>) -> Seq<char>
    decreases s.len(),
{
    if p.len() > 0 && p.is_suffix_of(s) {
        without_suffixes(s.subrange(0, s.len() - p.len()), p)
    } else {
        s
    }
}

/// `s` without the texts `p` it starts with; `p` is not empty.
pub open spec fn without_prefixes(s: Seq<char>, p: Seq<char>) -> Seq<char>
    decreases s.len(),
{
    if p.len() > 0 && p.is_prefix_of(s) {
        without_prefixes(s.subrange(p.len() as int, s.len() as int), p)
    } else {
        s
    }
}

/// The first character `c` of `s` from `i` on, or the end.
pub open spec fn next_at(s: Seq<char>, c: char, i: int) -> int
    decreases s.len() - i,
{
    if i >= s.len() {
        s.len() as int
    } else if s[i] == c {
        i
    } else {
        next_at(s, c, i + 1)
    }
}

/// The parts of `s` between the characters `c`.
pub open spec fn segments(s: Seq<char>, c: char) -> Seq<Seq<char>>
    decreases s.len(),
{
    let k = next_at(s, c, 0);
    if k < 0 || k >= s.len() {
        seq![s]
    } else {
        seq![s.subrange(0, k)] + segments(s.subrange(k + 1, s.len() as int), c)
    }
}

/// `a` stands before `b` in the order of texts, or is the same.
pub open spec fn ordered(a: Seq<char>, b: Seq<char>) -> bool
    decreases a.len(),
{
    if a.len() == 0 {
        true
    } else if b.len() == 0 {
        false
    } else if a[0] != b[0] {
        a[0] < b[0]
    } else {
        ordered(a.subrange(1, a.len() as int), b.subrange(1, b.len() as int))
    }
}

/// Any two texts are ordered one way or the other, and both ways only if they
/// are the same.
pub proof fn order_is_total(a: Seq<char>, b: Seq<char>)
    ensures
        ordered(a, b) || ordered(b, a),
        ordered(a, b) && ordered(b, a) ==> a == b,
    decreases a.len(),
{
    if a.len() > 0 && b.len() > 0 && a[0] == b[0] {
        let x = a.subrange(1, a.len() as int);
        let y = b.subrange(1, b.len() as int);
        order_is_total(x, y);
        if ordered(a, b) && ordered(b, a) {
            assert(a =~= seq![a[0]] + x);
            assert(b =~= seq![b[0]] + y);
        }
    } else if a.len() == 0 && b.len() == 0 {
        assert(a =~= b);
    }
}

/// The order of texts is transitive.
pub proof fn order_is_transitive(a: Seq<char>, b: Seq<char>, c: Seq<char>)
    requires
        ordered(a, b),
        ordered(b, c),
    ensures
        ordered(a, c),
    decreases a.len(),
{
    if a.len() > 0 && b.len() > 0 && c.len() > 0 && a[0] == b[0] && b[0] == c[0] {
        order_is_transitive(
            a.subrange(1, a.len() as int),
            b.subrange(1, b.len() as int),
            c.subrange(1, c.len() as int),
        );
    }
}

/// Whether `p` occurs somewhere in `s`.
pub open spec fn occurs(p: Seq<char>, s: Seq<char>) -> bool {
    exists|i: int| occurs_at(p, s, i)
}

/// Whether `p` occurs in `s` at character `i`.
pub open spec fn occurs_at(p: Seq<char>, s: Seq<char>, i: int) -> bool {
    &&& 0 <= i
    &&& i + p.len() <= s.len()
    &&& s.subrange(i, i + p.len()) == p
}

/// One decimal digit.
pub open spec fn digit(d: nat) -> char {
    if d == 0 {
        '0'
    } else if d == 1 {
        '1'
    } else if d == 2 {
        '2'
    } else if d == 3 {
        '3'
    } else if d == 4 {
        '4'
    } else if d == 5 {
        '5'
    } else if d == 6 {
        '6'
    } else if d == 7 {
        '7'
    } else if d == 8 {
        '8'
    } else {
        '9'
    }
}

/// A number in decimal, without leading zeros.
pub open spec fn decimal(n: nat) -> Seq<char>
    decreases n,
{
    if n < 10 {
        seq![digit(n)]
    } else {
        decimal(n / 10).push(digit(n % 10))
    }
}

/// The texts of a list of strings.
pub open spec fn texts(v: Seq<String>) -> Seq<Seq<char>> {
    v.map_values(|s: String| s@)
}

/// The parts one after the other, with `sep` between neighbours.
pub open spec fn joined(parts: Seq<Seq<char>>, sep: Seq<char>) -> Seq<char>
    decreases parts.len(),
{
    if parts.len() == 0 {
        Seq::empty()
    } else if parts.len() == 1 {
        parts[0]
    } else {
        joined(parts.drop_last(), sep) + sep + parts.last()
    }
}

/// An ASCII letter in lower case, any other character as it is.
pub open spec fn ascii_lower_char(c: char) -> char {
    if 'A' <= c && c <= 'Z' {
        ((c as u8) + 32) as u8 as char
    } else {
        c
    }
}

/// Two texts that differ at most in the case of ASCII letters.
pub open spec fn same_ignoring_ascii_case(a: Seq<char>, b: Seq<char>) -> bool {
    a.map_values(|c: char| ascii_lower_char(c)) == b.map_values(|c: char| ascii_lower_char(c))
}

// --- executable helpers -------------------------------------------------------

/// The characters of a text.
pub fn chars_of(s: &str) -> (r: Vec<char>)
    ensures
        r@ == s@,
{
    let mut v: Vec<char> = Vec::new();
    for c in it: s.chars()
        invariant
            it.seq() == s@,
            v@ == s@.subrange(0, it.index() as int),
    {
        v.push(c);
    }
    assert(v@ =~= s@);
    v
}

/// The text made of the characters `v[from..to]`.
pub fn text_of(v: &Vec<char>, from: usize, to: usize) -> (r: String)
    requires
        from <= to <= v@.len(),
    ensures
        r@ == v@.subrange(from as int, to as int),
{
    let mut out = String::new();
    let mut i: usize = from;
    while i < to
        invariant
            from <= i <= to <= v@.len(),
            out@ == v@.subrange(from as int, i as int),
        decreases to - i,
    {
        out.push(v[i]);
        i += 1;
    }
    out
}

/// Append a string to a list.
pub fn push_text(v: &mut Vec<String>, s: String)
    ensures
        texts(final(v)@) == texts(old(v)@).push(s@),
        final(v)@ == old(v)@.push(s),
{
    v.push(s);
    assert(texts(v@) =~= texts(old(v)@).push(s@));
}

/// Two texts one after the other.
pub fn cat2(a: &str, b: &str) -> (r: String)
    ensures
        r@ == a@ + b@,
{
    let mut t = a.to_owned();
    t.append(b);
    t
}

/// Three texts one after the other.
pub fn cat3(a: &str, b: &str, c: &str) -> (r: String)
    ensures
        r@ == a@ + b@ + c@,
{
    let mut t = a.to_owned();
    t.append(b);
    t.append(c);
    t
}

/// Four texts one after the other.
pub fn cat4(a: &str, b: &str, c: &str, d: &str) -> (r: String)
    ensures
        r@ == a@ + b@ + c@ + d@,
{
    let mut t = a.to_owned();
    t.append(b);
    t.append(c);
    t.append(d);
    t
}

/// Five texts one after the other.
pub fn cat5(a: &str, b: &str, c: &str, d: &str, e: &str) -> (r: String)
    ensures
        r@ == a@ + b@ + c@ + d@ + e@,
{
    let mut t = a.to_owned();
    t.append(b);
    t.append(c);
    t.append(d);
    t.append(e);
    t
}

/// Six texts one after the other.
pub fn cat6(a: &str, b: &str, c: &str, d: &str, e: &str, f: &str) -> (r: String)
    ensures
        r@ == a@ + b@ + c@ + d@ + e@ + f@,
{
    let mut t = a.to_owned();
    t.append(b);
    t.append(c);
    t.append(d);
    t.append(e);
    t.append(f);
    t
}

/// Seven texts one after the other.
pub fn cat7(a: &str, b: &str, c: &str, d: &str, e: &str, f: &str, g: &str) -> (r: String)
    ensures
        r@ == a@ + b@ + c@ + d@ + e@ + f@ + g@,
{
    let mut t = a.to_owned();
    t.append(b);
    t.append(c);
    t.append(d);
    t.append(e);
    t.append(f);
    t.append(g);
    t
}

/// Whether a list holds a text.
pub fn list_has(v: &Vec<String>, s: &str) -> (r: bool)
    ensures
        r == texts(v@).contains(s@),
{
    let mut i: usize = 0;
    while i < v.len()
        invariant
            i <= v@.len(),
            forall|k: int| 0 <= k < i ==> #[trigger] texts(v@)[k] != s@,
        decreases v@.len() - i,
    {
        if same(v[i].as_str(), s) {
            assert(texts(v@)[i as int] == s@);
            return true;
        }
        i += 1;
    }
    false
}

/// The texts but this one.
pub open spec fn texts_without(v: Seq<Seq<char>>, s: Seq<char>) -> Seq<Seq<char>>
    decreases v.len(),
{
    if v.len() == 0 {
        Seq::empty()
    } else if v.last() == s {
        texts_without(v.drop_last(), s)
    } else {
        texts_without(v.drop_last(), s).push(v.last())
    }
}

/// The texts, and this one at the end where it was missing.
pub open spec fn texts_with(v: Seq<Seq<char>>, s: Seq<char>) -> Seq<Seq<char>> {
    if v.contains(s) {
        v
    } else {
        v.push(s)
    }
}

/// Exactly this text is gone from the list.
pub proof fn without_is_gone(v: Seq<Seq<char>>, s: Seq<char>, x: Seq<char>)
    ensures
        texts_without(v, s).contains(x) <==> v.contains(x) && x != s,
        v.no_duplicates() ==> texts_without(v, s).no_duplicates(),
    decreases v.len(),
{
    if v.len() > 0 {
        let init = v.drop_last();
        without_is_gone(init, s, x);
        let w = texts_without(init, s);
        assert(v =~= init.push(v.last()));
        if v.contains(x) {
            let k = choose|k: int| 0 <= k < v.len() && v[k] == x;
            if k < init.len() {
                assert(init[k] == x);
            }
        }
        if init.contains(x) {
            let k = choose|k: int| 0 <= k < init.len() && init[k] == x;
            assert(v[k] == x);
        }
        assert(v[v.len() - 1] == v.last());
        if v.last() != s {
            let p = w.push(v.last());
            assert(p[p.len() - 1] == v.last());
            if w.contains(x) {
                let k = choose|k: int| 0 <= k < w.len() && w[k] == x;
                assert(p[k] == x);
            }
            if p.contains(x) && x != v.last() {
                let k = choose|k: int| 0 <= k < p.len() && p[k] == x;
                assert(w[k] == x);
            }
            if v.no_duplicates() {
                without_is_gone(init, s, v.last());
                assert(init.no_duplicates());
                assert(!init.contains(v.last()));
                assert(p.no_duplicates());
            }
        } else if v.no_duplicates() {
            assert(init.no_duplicates());
        }
    }
}

/// Add a text to a list that holds each one once.
pub fn add_text(v: &mut Vec<String>, s: String)
    ensures
        texts(final(v)@) == texts_with(texts(old(v)@), s@),
{
    if !list_has(v, s.as_str()) {
        push_text(v, s);
    }
}

/// Take a text out of a list.
pub fn remove_text(v: &mut Vec<String>, s: &str)
    ensures
        texts(final(v)@) == texts_without(texts(old(v)@), s@),
{
    let mut kept: Vec<String> = Vec::new();
    let ghost all = texts(v@);
    let mut i: usize = 0;
    assert(texts(kept@) =~= Seq::empty());
    while i < v.len()
        invariant
            i <= v@.len(),
            all == texts(v@),
            texts(kept@) == texts_without(all.subrange(0, i as int), s@),
        decreases v@.len() - i,
    {
        assert(all.subrange(0, i + 1).drop_last() =~= all.subrange(0, i as int));
        if !same(v[i].as_str(), s) {
            push_text(&mut kept, v[i].clone());
        }
        i += 1;
    }
    assert(all.subrange(0, i as int) =~= all);
    *v = kept;
}

/// Texts in strict order: each one once.
pub open spec fn strictly_ordered(v: Seq<Seq<char>>) -> bool {
    forall|i: int, j: int|
        0 <= i < j < v.len() ==> ordered(#[trigger] v[i], #[trigger] v[j]) && v[i] != v[j]
}

/// Where a text stands in a strictly ordered list, or would stand.
pub fn ordered_place(v: &Vec<String>, s: &str) -> (r: (usize, bool))
    requires
        strictly_ordered(texts(v@)),
    ensures
        r.0 <= v@.len(),
        r.1 ==> r.0 < v@.len() && texts(v@)[r.0 as int] == s@,
        r.1 == texts(v@).contains(s@),
        forall|k: int| 0 <= k < r.0 ==> ordered(#[trigger] texts(v@)[k], s@) && texts(v@)[k] != s@,
        forall|k: int| r.0 <= k < v@.len() ==> ordered(s@, #[trigger] texts(v@)[k]),
{
    let mut i: usize = 0;
    while i < v.len()
        invariant
            i <= v@.len(),
            strictly_ordered(texts(v@)),
            forall|k: int| 0 <= k < i ==> ordered(#[trigger] texts(v@)[k], s@) && texts(v@)[k] != s@,
        decreases v@.len() - i,
    {
        if same(v[i].as_str(), s) {
            assert(texts(v@)[i as int] == s@);
            assert forall|k: int| i <= k < v@.len() implies ordered(s@, #[trigger] texts(v@)[k]) by {
                if k == i {
                    order_is_total(s@, s@);
                } else {
                    assert(ordered(texts(v@)[i as int], texts(v@)[k]));
                }
            }
            return (i, true);
        }
        if !in_order(v[i].as_str(), s) {
            proof {
                order_is_total(texts(v@)[i as int], s@);
                assert forall|k: int| i <= k < v@.len() implies ordered(s@, #[trigger] texts(v@)[k])
                    && texts(v@)[k] != s@ by {
                    if k > i {
                        assert(ordered(texts(v@)[i as int], texts(v@)[k]));
                        order_is_transitive(s@, texts(v@)[i as int], texts(v@)[k]);
                    }
                }
            }
            return (i, false);
        }
        i += 1;
    }
    (i, false)
}

/// Add a text to a strictly ordered list.
pub fn add_ordered(v: &mut Vec<String>, s: String)
    requires
        strictly_ordered(texts(old(v)@)),
    ensures
        strictly_ordered(texts(final(v)@)),
        forall|x: Seq<char>| #[trigger]
            texts(final(v)@).contains(x) <==> texts(old(v)@).contains(x) || x == s@,
{
    let ghost before = texts(v@);
    let (p, there) = ordered_place(v, s.as_str());
    if !there {
        v.insert(p, s);
        let ghost now = texts(v@);
        assert(now =~= before.insert(p as int, s@));
        proof {
            inserted_contains(before, p as int, s@);
            assert forall|i: int, j: int| 0 <= i < j < now.len() implies ordered(
                #[trigger] now[i],
                #[trigger] now[j],
            ) && now[i] != now[j] by {
                let a = if i < p { i } else { i - 1 };
                let b = if j < p { j } else { j - 1 };
                if i != p {
                    assert(now[i] == before[a]);
                }
                if j != p {
                    assert(now[j] == before[b]);
                }
            }
        }
    }
}

/// Inserting an element adds exactly that one.
pub proof fn inserted_contains<A>(v: Seq<A>, p: int, s: A)
    requires
        0 <= p <= v.len(),
    ensures
        forall|x: A| #[trigger] v.insert(p, s).contains(x) <==> v.contains(x) || x == s,
{
    let w = v.insert(p, s);
    assert forall|x: A| #[trigger] w.contains(x) <==> v.contains(x) || x == s by {
        if v.contains(x) {
            let k = choose|k: int| 0 <= k < v.len() && v[k] == x;
            if k < p {
                assert(w[k] == x);
            } else {
                assert(w[k + 1] == x);
            }
        }
        if x == s {
            assert(w[p] == x);
        }
        if w.contains(x) && x != s {
            let k = choose|k: int| 0 <= k < w.len() && w[k] == x;
            if k < p {
                assert(v[k] == x);
            } else {
                assert(v[k - 1] == x);
            }
        }
    }
}

/// A copy of a list of strings.
pub fn copy_texts(v: &Vec<String>) -> (r: Vec<String>)
    ensures
        r@ == v@,
{
    let mut out: Vec<String> = Vec::new();
    let mut i: usize = 0;
    while i < v.len()
        invariant
            i <= v@.len(),
            out@ =~= v@.subrange(0, i as int),
        decreases v@.len() - i,
    {
        out.push(v[i].clone());
        i += 1;
    }
    assert(out@ =~= v@);
    out
}

/// Whether two texts are the same.
pub fn same(a: &str, b: &str) -> (r: bool)
    ensures
        r == (a@ == b@),
{
    a.to_owned() == b.to_owned()
}

/// The first `n` characters of a text, or all of it.
pub fn take_chars(s: &str, n: usize) -> (r: String)
    ensures
        r@ == if s@.len() <= n { s@ } else { s@.subrange(0, n as int) },
{
    let v = chars_of(s);
    let end: usize = if v.len() <= n { v.len() } else { n };
    let r = text_of(&v, 0, end);
    assert(v@.subrange(0, v@.len() as int) =~= v@);
    r
}

/// Whether `s` starts with `p`.
pub fn starts_with(s: &str, p: &str) -> (r: bool)
    ensures
        r == p@.is_prefix_of(s@),
{
    let a = chars_of(s);
    let b = chars_of(p);
    matches_at(&a, &b, 0)
}

/// Whether `s` ends with `p`.
pub fn ends_with(s: &str, p: &str) -> (r: bool)
    ensures
        r == p@.is_suffix_of(s@),
{
    let a = chars_of(s);
    let b = chars_of(p);
    if b.len() > a.len() {
        return false;
    }
    matches_at(&a, &b, a.len() - b.len())
}

/// Whether `p` stands in `s` at character `at`.
pub fn matches_at(s: &Vec<char>, p: &Vec<char>, at: usize) -> (r: bool)
    requires
        at <= s@.len(),
    ensures
        r == occurs_at(p@, s@, at as int),
{
    let n: usize = s.len();
    if p.len() > n - at {
        return false;
    }
    let mut i: usize = 0;
    while i < p.len()
        invariant
            i <= p@.len(),
            n == s@.len(),
            at + p@.len() <= n,
            forall|k: int| 0 <= k < i ==> s@[at + k] == #[trigger] p@[k],
        decreases p@.len() - i,
    {
        if s[at + i] != p[i] {
            assert(s@.subrange(at as int, at + p@.len())[i as int] != p@[i as int]);
            return false;
        }
        i += 1;
    }
    assert(s@.subrange(at as int, at + p@.len()) =~= p@);
    true
}

/// Whether `p` occurs in `s`.
pub fn contains(s: &str, p: &str) -> (r: bool)
    ensures
        r == occurs(p@, s@),
{
    let a = chars_of(s);
    let b = chars_of(p);
    if b.len() > a.len() {
        return false;
    }
    let mut i: usize = 0;
    while i <= a.len() - b.len()
        invariant
            a@ == s@,
            b@ == p@,
            b@.len() <= a@.len(),
            i <= a@.len() - b@.len() + 1,
            forall|k: int| 0 <= k < i ==> !#[trigger] occurs_at(p@, s@, k),
        decreases a@.len() + 1 - i,
    {
        if matches_at(&a, &b, i) {
            return true;
        }
        if i == a.len() - b.len() {
            return false;
        }
        i += 1;
    }
    false
}

/// The characters of `s` after the prefix `p`, where it has that prefix.
pub fn strip_prefix(s: &str, p: &str) -> (r: Option<String>)
    ensures
        r is Some <==> p@.is_prefix_of(s@),
        r is Some ==> r->0@ == s@.subrange(p@.len() as int, s@.len() as int),
{
    let a = chars_of(s);
    let b = chars_of(p);
    if matches_at(&a, &b, 0) {
        Some(text_of(&a, b.len(), a.len()))
    } else {
        None
    }
}

/// `str::trim_start`.
pub fn trim_start(s: &str) -> (r: String)
    ensures
        r@ == trimmed_start(s@),
{
    let v = chars_of(s);
    let mut i: usize = 0;
    assert(v@.subrange(0, v@.len() as int) =~= s@);
    while i < v.len() && v[i].is_whitespace()
        invariant
            i <= v@.len(),
            v@ == s@,
            trimmed_start(s@) == trimmed_start(v@.subrange(i as int, v@.len() as int)),
        decreases v@.len() - i,
    {
        assert(v@.subrange(i as int, v@.len() as int).subrange(
            1,
            v@.subrange(i as int, v@.len() as int).len() as int,
        ) =~= v@.subrange(i + 1, v@.len() as int));
        i += 1;
    }
    text_of(&v, i, v.len())
}

/// `str::trim_end`.
pub fn trim_end(s: &str) -> (r: String)
    ensures
        r@ == trimmed_end(s@),
{
    let v = chars_of(s);
    let mut i: usize = v.len();
    assert(v@.subrange(0, v@.len() as int) =~= s@);
    while i > 0 && v[i - 1].is_whitespace()
        invariant
            i <= v@.len(),
            v@ == s@,
            trimmed_end(s@) == trimmed_end(v@.subrange(0, i as int)),
        decreases i,
    {
        assert(v@.subrange(0, i as int).drop_last() =~= v@.subrange(0, i - 1));
        i -= 1;
    }
    text_of(&v, 0, i)
}

/// `str::trim`.
pub fn trim(s: &str) -> (r: String)
    ensures
        r@ == trimmed(s@),
{
    let a = trim_start(s);
    trim_end(a.as_str())
}

/// `str::trim_end_matches` with one character.
pub fn trim_trailing(s: &str, c: char) -> (r: String)
    ensures
        r@ == without_trailing(s@, c),
{
    let v = chars_of(s);
    let mut i: usize = v.len();
    assert(v@.subrange(0, v@.len() as int) =~= s@);
    while i > 0 && v[i - 1] == c
        invariant
            i <= v@.len(),
            v@ == s@,
            without_trailing(s@, c) == without_trailing(v@.subrange(0, i as int), c),
        decreases i,
    {
        assert(v@.subrange(0, i as int).drop_last() =~= v@.subrange(0, i - 1));
        i -= 1;
    }
    text_of(&v, 0, i)
}

/// `str::trim_end_matches` with a text.
pub fn trim_suffixes(s: &str, p: &str) -> (r: String)
    requires
        p@.len() > 0,
    ensures
        r@ == without_suffixes(s@, p@),
{
    let v = chars_of(s);
    let q = chars_of(p);
    let mut i: usize = v.len();
    assert(v@.subrange(0, v@.len() as int) =~= s@);
    loop
        invariant
            i <= v@.len(),
            v@ == s@,
            q@ == p@,
            q@.len() > 0,
            without_suffixes(s@, p@) == without_suffixes(v@.subrange(0, i as int), p@),
        ensures
            i <= v@.len(),
            without_suffixes(s@, p@) == v@.subrange(0, i as int),
        decreases i,
    {
        let ghost now = v@.subrange(0, i as int);
        if q.len() > i {
            break;
        }
        let mut k: usize = 0;
        let mut found = true;
        while k < q.len()
            invariant
                k <= q@.len() <= i <= v@.len(),
                now == v@.subrange(0, i as int),
                found == (forall|j: int| 0 <= j < k ==> v@[i - q@.len() + j] == #[trigger] q@[j]),
            decreases q@.len() - k,
        {
            if v[i - q.len() + k] != q[k] {
                found = false;
            }
            k += 1;
        }
        if !found {
            assert(!p@.is_suffix_of(now)) by {
                let j = choose|j: int| 0 <= j < q@.len() && v@[i - q@.len() + j] != #[trigger] q@[j];
                assert(now.subrange(now.len() - q@.len(), now.len() as int)[j] != q@[j]);
            }
            break;
        }
        assert(p@.is_suffix_of(now)) by {
            assert(now.subrange(now.len() - q@.len(), now.len() as int) =~= q@);
        }
        assert(now.subrange(0, now.len() - q@.len()) =~= v@.subrange(0, i - q@.len()));
        i -= q.len();
    }
    text_of(&v, 0, i)
}

/// The characters of `s` before the suffix `p`, where it has that suffix.
pub fn strip_suffix(s: &str, p: &str) -> (r: Option<String>)
    ensures
        r is Some <==> p@.is_suffix_of(s@),
        r is Some ==> r->0@ == s@.subrange(0, s@.len() - p@.len()),
{
    let a = chars_of(s);
    let b = chars_of(p);
    if b.len() <= a.len() && matches_at(&a, &b, a.len() - b.len()) {
        Some(text_of(&a, 0, a.len() - b.len()))
    } else {
        None
    }
}

/// `str::trim_start_matches` with a text.
pub fn trim_prefixes(s: &str, p: &str) -> (r: String)
    requires
        p@.len() > 0,
    ensures
        r@ == without_prefixes(s@, p@),
    decreases s@.len(),
{
    match strip_prefix(s, p) {
        Some(rest) => trim_prefixes(rest.as_str(), p),
        None => s.to_owned(),
    }
}

/// `str::split` with a character.
pub fn split(s: &str, c: char) -> (r: Vec<String>)
    ensures
        texts(r@) == segments(s@, c),
{
    let v = chars_of(s);
    let mut out: Vec<String> = Vec::new();
    let mut from: usize = 0;
    let mut i: usize = 0;
    assert(v@.subrange(0, v@.len() as int) =~= s@);
    assert(texts(out@) + segments(s@, c) =~= segments(s@, c));
    while i < v.len()
        invariant
            from <= i <= v@.len(),
            v@ == s@,
            segments(s@, c) == texts(out@) + segments(v@.subrange(from as int, v@.len() as int), c),
            next_at(v@.subrange(from as int, v@.len() as int), c, 0) == next_at(
                v@.subrange(from as int, v@.len() as int),
                c,
                i - from,
            ),
        decreases v@.len() - i,
    {
        let ghost rest = v@.subrange(from as int, v@.len() as int);
        if v[i] == c {
            let ghost before = texts(out@);
            assert(rest[i - from] == c);
            assert(next_at(rest, c, 0) == i - from);
            let part = text_of(&v, from, i);
            assert(rest.subrange(0, i - from) =~= part@);
            assert(rest.subrange(i - from + 1, rest.len() as int) =~= v@.subrange(
                i + 1,
                v@.len() as int,
            ));
            push_text(&mut out, part);
            assert(before + (seq![part@] + segments(v@.subrange(i + 1, v@.len() as int), c))
                =~= texts(out@) + segments(v@.subrange(i + 1, v@.len() as int), c));
            from = i + 1;
        } else {
            assert(rest[i - from] != c);
        }
        i += 1;
    }
    let ghost rest = v@.subrange(from as int, v@.len() as int);
    assert(next_at(rest, c, 0) == rest.len());
    let ghost before = texts(out@);
    let part = text_of(&v, from, v.len());
    push_text(&mut out, part);
    assert(before + seq![rest] =~= texts(out@));
    out
}

/// Whether `a` stands before `b` in the order of texts, or is the same.
pub fn in_order(a: &str, b: &str) -> (r: bool)
    ensures
        r == ordered(a@, b@),
{
    let x = chars_of(a);
    let y = chars_of(b);
    let mut i: usize = 0;
    assert(x@.subrange(0, x@.len() as int) =~= a@);
    assert(y@.subrange(0, y@.len() as int) =~= b@);
    while i < x.len() && i < y.len() && x[i] == y[i]
        invariant
            i <= x@.len(),
            i <= y@.len(),
            x@ == a@,
            y@ == b@,
            ordered(a@, b@) == ordered(
                x@.subrange(i as int, x@.len() as int),
                y@.subrange(i as int, y@.len() as int),
            ),
        decreases x@.len() - i,
    {
        let ghost p = x@.subrange(i as int, x@.len() as int);
        let ghost q = y@.subrange(i as int, y@.len() as int);
        assert(p.subrange(1, p.len() as int) =~= x@.subrange(i + 1, x@.len() as int));
        assert(q.subrange(1, q.len() as int) =~= y@.subrange(i + 1, y@.len() as int));
        i += 1;
    }
    if i >= x.len() {
        true
    } else if i >= y.len() {
        false
    } else {
        x[i] < y[i]
    }
}

fn digit_char(d: u64) -> (c: char)
    requires
        d < 10,
    ensures
        c == digit(d as nat),
{
    match d {
        0 => '0',
        1 => '1',
        2 => '2',
        3 => '3',
        4 => '4',
        5 => '5',
        6 => '6',
        7 => '7',
        8 => '8',
        _ => '9',
    }
}

/// A number in decimal.
pub fn dec(n: u64) -> (r: String)
    ensures
        r@ == decimal(n as nat),
    decreases n,
{
    if n < 10 {
        let mut s = String::new();
        s.push(digit_char(n));
        assert(s@ =~= seq![digit(n as nat)]);
        s
    } else {
        let mut s = dec(n / 10);
        s.push(digit_char(n % 10));
        s
    }
}

/// The strings one after the other, with `sep` between neighbours.
pub fn join(parts: &Vec<String>, sep: &str) -> (r: String)
    ensures
        r@ == joined(texts(parts@), sep@),
{
    let mut out = String::new();
    let mut i: usize = 0;
    while i < parts.len()
        invariant
            i <= parts@.len(),
            out@ == joined(texts(parts@).subrange(0, i as int), sep@),
        decreases parts@.len() - i,
    {
        if i > 0 {
            out.append(sep);
        }
        out.append(parts[i].as_str());
        assert(texts(parts@).subrange(0, i + 1).drop_last() =~= texts(parts@).subrange(0, i as int));
        if i == 0 {
            assert(out@ =~= parts@[0]@);
        }
        i += 1;
    }
    assert(texts(parts@).subrange(0, i as int) =~= texts(parts@));
    out
}

fn lower_ascii(c: char) -> (r: char)
    ensures
        r == ascii_lower_char(c),
{
    if 'A' <= c && c <= 'Z' {
        ((c as u8) + 32) as char
    } else {
        c
    }
}

/// `str::eq_ignore_ascii_case`.
pub fn eq_ignore_ascii_case(a: &str, b: &str) -> (r: bool)
    ensures
        r == same_ignoring_ascii_case(a@, b@),
{
    let x = chars_of(a);
    let y = chars_of(b);
    let ghost lx = a@.map_values(|c: char| ascii_lower_char(c));
    let ghost ly = b@.map_values(|c: char| ascii_lower_char(c));
    if x.len() != y.len() {
        assert(lx.len() != ly.len());
        return false;
    }
    let mut i: usize = 0;
    while i < x.len()
        invariant
            i <= x@.len(),
            x@.len() == y@.len(),
            x@ == a@,
            y@ == b@,
            lx == a@.map_values(|c: char| ascii_lower_char(c)),
            ly == b@.map_values(|c: char| ascii_lower_char(c)),
            forall|k: int| 0 <= k < i ==> #[trigger] lx[k] == ly[k],
        decreases x@.len() - i,
    {
        if lower_ascii(x[i]) != lower_ascii(y[i]) {
            assert(lx[i as int] != ly[i as int]);
            return false;
        }
        i += 1;
    }
    assert(lx =~= ly);
    true
}

// --- what the helpers are for -----------------------------------------------------------------

/// Trimming takes white characters off both ends, and nothing else: around
/// what is left, which neither starts nor ends with one, all were white.
pub proof fn trimming_takes_white_ends(s: Seq<char>) -> (r: (int, int))
    ensures
        0 <= r.0 <= r.1 <= s.len(),
        trimmed(s) == s.subrange(r.0, r.1),
        forall|k: int| 0 <= k < r.0 ==> white(#[trigger] s[k]),
        forall|k: int| r.1 <= k < s.len() ==> white(#[trigger] s[k]),
        trimmed(s).len() > 0 ==> !white(trimmed(s)[0]) && !white(trimmed(s).last()),
{
    let a = start_trimmed(s);
    let t = trimmed_start(s);
    let b = end_trimmed(t);
    assert(t.subrange(0, b) =~= s.subrange(a, a + b));
    assert forall|k: int| a + b <= k < s.len() implies white(#[trigger] s[k]) by {
        assert(white(t[k - a]));
    }
    if b > 0 {
        assert(trimmed(s)[0] == t[0]);
    }
    (a, a + b)
}

proof fn start_trimmed(s: Seq<char>) -> (a: int)
    ensures
        0 <= a <= s.len(),
        trimmed_start(s) == s.subrange(a, s.len() as int),
        forall|k: int| 0 <= k < a ==> white(#[trigger] s[k]),
        a < s.len() ==> !white(s[a]),
    decreases s.len(),
{
    if s.len() > 0 && white(s[0]) {
        let t = s.subrange(1, s.len() as int);
        let a = start_trimmed(t);
        assert(t.subrange(a, t.len() as int) =~= s.subrange(a + 1, s.len() as int));
        assert forall|k: int| 0 <= k < a + 1 implies white(#[trigger] s[k]) by {
            if k > 0 {
                assert(white(t[k - 1]));
            }
        }
        a + 1
    } else {
        assert(s.subrange(0, s.len() as int) =~= s);
        0
    }
}

proof fn end_trimmed(s: Seq<char>) -> (b: int)
    ensures
        0 <= b <= s.len(),
        trimmed_end(s) == s.subrange(0, b),
        forall|k: int| b <= k < s.len() ==> white(#[trigger] s[k]),
        b > 0 ==> !white(s[b - 1]),
    decreases s.len(),
{
    if s.len() > 0 && white(s.last()) {
        let t = s.drop_last();
        let b = end_trimmed(t);
        assert(t.subrange(0, b) =~= s.subrange(0, b));
        assert forall|k: int| b <= k < s.len() implies white(#[trigger] s[k]) by {
            if k < s.len() - 1 {
                assert(white(t[k]));
            }
        }
        b
    } else {
        assert(s.subrange(0, s.len() as int) =~= s);
        s.len() as int
    }
}

/// Taking a character off the end takes every one of them off, and only them.
pub proof fn a_tail_is_taken_off(base: Seq<char>, tail: Seq<char>, c: char)
    requires
        base.len() > 0 ==> base.last() != c,
        forall|k: int| 0 <= k < tail.len() ==> #[trigger] tail[k] == c,
    ensures
        without_trailing(base + tail, c) == base,
    decreases tail.len(),
{
    if tail.len() > 0 {
        assert((base + tail).drop_last() =~= base + tail.drop_last());
        assert((base + tail).last() == tail[tail.len() - 1]);
        assert forall|k: int| 0 <= k < tail.drop_last().len() implies #[trigger] tail.drop_last()[k]
            == c by {
            assert(tail[k] == c);
        }
        a_tail_is_taken_off(base, tail.drop_last(), c);
    } else {
        assert(base + tail =~= base);
    }
}

/// What is left without a character at the end, and how much was taken off.
pub proof fn a_tail_is_a_tail(s: Seq<char>, c: char)
    ensures
        ({
            let base = without_trailing(s, c);
            &&& base.is_prefix_of(s)
            &&& base.len() > 0 ==> base.last() != c
            &&& forall|k: int| base.len() <= k < s.len() ==> #[trigger] s[k] == c
        }),
    decreases s.len(),
{
    if s.len() > 0 && s.last() == c {
        let t = s.drop_last();
        a_tail_is_a_tail(t, c);
        let base = without_trailing(s, c);
        assert(base =~= s.subrange(0, base.len() as int));
        assert forall|k: int| base.len() <= k < s.len() implies #[trigger] s[k] == c by {
            if k < t.len() {
                assert(t[k] == c);
            }
        }
    } else {
        assert(s =~= s.subrange(0, s.len() as int));
    }
}

/// A text that does not end in `p` is left as it is; one more `p` at its end,
/// and again one more, are taken off.
pub proof fn a_suffix_is_taken_off(s: Seq<char>, p: Seq<char>)
    requires
        p.len() > 0,
    ensures
        without_suffixes(s + p, p) == without_suffixes(s, p),
        !p.is_suffix_of(s) ==> without_suffixes(s, p) == s,
        !p.is_suffix_of(without_suffixes(s, p)),
    decreases s.len(),
{
    assert((s + p).subrange((s + p).len() - p.len(), (s + p).len() as int) =~= p);
    assert((s + p).subrange(0, (s + p).len() - p.len()) =~= s);
    if p.is_suffix_of(s) {
        a_suffix_is_taken_off(s.subrange(0, s.len() - p.len()), p);
    }
}

/// The value of a text of digits.
pub open spec fn numeral(s: Seq<char>) -> nat
    decreases s.len(),
{
    if s.len() == 0 {
        0
    } else {
        10 * numeral(s.drop_last()) + (s.last() as nat - '0' as nat) as nat
    }
}

/// A number in decimal is made of digits, has the number's value, and no zero
/// in front.
pub proof fn a_number_is_spelled_out(n: nat)
    ensures
        decimal(n).len() > 0,
        forall|k: int| 0 <= k < decimal(n).len() ==> '0' <= #[trigger] decimal(n)[k] <= '9',
        numeral(decimal(n)) == n,
        decimal(n).len() > 1 ==> decimal(n)[0] != '0',
        n > 0 ==> decimal(n)[0] != '0',
    decreases n,
{
    if n < 10 {
        assert(decimal(n).drop_last() =~= Seq::empty());
        assert(numeral(Seq::<char>::empty()) == 0);
        assert(decimal(n).last() == digit(n));
    } else {
        a_number_is_spelled_out(n / 10);
        assert(decimal(n).last() == digit(n % 10));
        assert(decimal(n).drop_last() =~= decimal(n / 10));
        assert(decimal(n)[0] == decimal(n / 10)[0]);
        assert forall|k: int| 0 <= k < decimal(n).len() implies '0' <= #[trigger] decimal(n)[k]
            <= '9' by {
            if k < decimal(n / 10).len() {
                assert(decimal(n)[k] == decimal(n / 10)[k]);
            }
        }
    }
}

proof fn next_is_found(s: Seq<char>, c: char, i: int)
    requires
        0 <= i <= s.len(),
    ensures
        i <= next_at(s, c, i) <= s.len(),
        next_at(s, c, i) < s.len() ==> s[next_at(s, c, i)] == c,
        forall|k: int| i <= k < next_at(s, c, i) ==> #[trigger] s[k] != c,
    decreases s.len() - i,
{
    if i < s.len() && s[i] != c {
        next_is_found(s, c, i + 1);
    }
}

/// The parts of a text, put together again, are the text, and none of them has
/// the character it was parted at.
pub proof fn parts_make_the_whole(s: Seq<char>, c: char)
    ensures
        segments(s, c).len() > 0,
        put_together(segments(s, c), c) == s,
        forall|i: int|
            0 <= i < segments(s, c).len() ==> !(#[trigger] segments(s, c)[i]).contains(c),
    decreases s.len(),
{
    let k = next_at(s, c, 0);
    next_is_found(s, c, 0);
    if k < s.len() {
        let head = s.subrange(0, k);
        let tail = s.subrange(k + 1, s.len() as int);
        parts_make_the_whole(tail, c);
        let rest = segments(tail, c);
        let all = segments(s, c);
        assert(all.subrange(1, all.len() as int) =~= rest);
        assert(all[0] == head);
        assert(s =~= head + seq![c] + tail);
        assert forall|i: int| 0 <= i < all.len() implies !(#[trigger] all[i]).contains(c) by {
            if i > 0 {
                assert(all[i] == rest[i - 1]);
            }
        }
    }
}

/// Parts with a character between neighbours.
pub open spec fn put_together(parts: Seq<Seq<char>>, c: char) -> Seq<char>
    decreases parts.len(),
{
    if parts.len() == 0 {
        Seq::empty()
    } else if parts.len() == 1 {
        parts[0]
    } else {
        parts[0] + seq![c] + put_together(parts.subrange(1, parts.len() as int), c)
    }
}

/// Joined parts start with the first one and go on after the separator; what
/// is joined of one part is that part.
pub proof fn parts_are_joined_in_order(a: Seq<Seq<char>>, b: Seq<Seq<char>>, sep: Seq<char>)
    requires
        a.len() > 0,
        b.len() > 0,
    ensures
        joined(a + b, sep) == joined(a, sep) + sep + joined(b, sep),
        a.len() == 1 ==> joined(a, sep) == a[0],
    decreases b.len(),
{
    let init = (a + b).drop_last();
    assert((a + b).last() == b.last());
    if b.len() == 1 {
        assert(init =~= a);
    } else {
        assert(init =~= a + b.drop_last());
        parts_are_joined_in_order(a, b.drop_last(), sep);
        assert(joined(a, sep) + sep + joined(b.drop_last(), sep) + sep + b.last() =~= joined(a, sep)
            + sep + (joined(b.drop_last(), sep) + sep + b.last()));
    }
}

/// Texts are in the order of the first character in which they differ; one
/// that starts another stands before it.
pub proof fn the_first_difference_decides(common: Seq<char>, x: Seq<char>, y: Seq<char>)
    requires
        x.len() == 0 || (y.len() > 0 && x[0] < y[0]),
    ensures
        ordered(common + x, common + y),
        x.len() > 0 ==> !ordered(common + y, common + x),
    decreases common.len(),
{
    if common.len() > 0 {
        let c = common.subrange(1, common.len() as int);
        assert((common + x).subrange(1, (common + x).len() as int) =~= c + x);
        assert((common + y).subrange(1, (common + y).len() as int) =~= c + y);
        the_first_difference_decides(c, x, y);
    } else {
        assert(common + x =~= x);
        assert(common + y =~= y);
    }
}

/// Letters that differ in case alone are the same to a comparison that ignores
/// the case of ASCII; any other two characters are not.
pub proof fn only_the_case_is_ignored(a: Seq<char>, b: Seq<char>)
    ensures
        same_ignoring_ascii_case(a, b) <==> a.len() == b.len() && forall|k: int|
            0 <= k < a.len() ==> #[trigger] a[k] == b[k] || differ_in_case(a[k], b[k]),
{
    let f = |c: char| ascii_lower_char(c);
    if same_ignoring_ascii_case(a, b) {
        assert(a.map_values(f).len() == b.map_values(f).len());
        assert forall|k: int| 0 <= k < a.len() implies #[trigger] a[k] == b[k] || differ_in_case(
            a[k],
            b[k],
        ) by {
            assert(a.map_values(f)[k] == b.map_values(f)[k]);
        }
    }
    if a.len() == b.len() && forall|k: int|
        0 <= k < a.len() ==> #[trigger] a[k] == b[k] || differ_in_case(a[k], b[k]) {
        assert(a.map_values(f) =~= b.map_values(f));
    }
}

/// One is a capital letter of ASCII, the other the same letter as a small one.
pub open spec fn differ_in_case(a: char, b: char) -> bool {
    ||| 'A' <= a <= 'Z' && b as u32 == a as u32 + 32
    ||| 'A' <= b <= 'Z' && a as u32 == b as u32 + 32
}

/// A text occurs in another exactly if that one is it with something before
/// and something after, or nothing.
pub proof fn a_part_occurs_in_the_whole(a: Seq<char>, p: Seq<char>, b: Seq<char>, s: Seq<char>)
    ensures
        occurs(p, a + p + b),
        p.len() > s.len() ==> !occurs(p, s),
        p.len() == s.len() && p != s ==> !occurs(p, s),
{
    let whole = a + p + b;
    let i = a.len() as int;
    assert(whole.subrange(i, i + p.len()) =~= p);
    assert(occurs_at(p, whole, i));
    if p.len() == s.len() && occurs(p, s) {
        let k = choose|k: int| occurs_at(p, s, k);
        assert(s.subrange(0, s.len() as int) =~= s);
    }
}

/// In lower case an ASCII text differs in its capital letters alone, each of
/// which becomes the small one.
pub proof fn capitals_become_small(s: Seq<char>, i: int)
    requires
        forall|k: int| 0 <= k < s.len() ==> '\0' <= #[trigger] s[k] <= '\u{7f}',
        0 <= i < s.len(),
    ensures
        lowercase(s).len() == s.len(),
        !('A' <= s[i] <= 'Z') ==> lowercase(s)[i] == s[i],
        'A' <= s[i] <= 'Z' ==> 'a' <= lowercase(s)[i] <= 'z' && lowercase(s)[i] as u32 == s[i] as u32 + 32,
{
    assert forall|k: int| 0 <= k < s.len() implies ascii(#[trigger] s[k]) by {}
}

/// Of the characters of ASCII, the letters and digits are those of the alphabet
/// and the ten digits.
pub proof fn ascii_letters_are_those_of_the_alphabet(c: char)
    requires
        '\0' <= c <= '\u{7f}',
    ensures
        letter_or_digit(c) <==> 'a' <= c <= 'z' || 'A' <= c <= 'Z' || '0' <= c <= '9',
{
}

/// A text added to a list is in it, at its end where it is new; the others
/// stay, and a text that is there already changes nothing.
pub proof fn a_text_is_listed_once(v: Seq<Seq<char>>, s: Seq<char>)
    ensures
        texts_with(v, s).contains(s),
        v.is_prefix_of(texts_with(v, s)),
        v.contains(s) ==> texts_with(v, s) == v,
        !v.contains(s) ==> texts_with(v, s).len() == v.len() + 1 && texts_with(v, s).last() == s,
{
    let w = texts_with(v, s);
    assert(w.subrange(0, v.len() as int) =~= v);
    if !v.contains(s) {
        assert(w[v.len() as int] == s);
    }
}

/// One more prefix in front is taken off, and a text without it is left as it
/// is.
pub proof fn a_prefix_is_taken_off(s: Seq<char>, p: Seq<char>)
    requires
        p.len() > 0,
    ensures
        without_prefixes(p + s, p) == without_prefixes(s, p),
        !p.is_prefix_of(s) ==> without_prefixes(s, p) == s,
{
    assert((p + s).subrange(0, p.len() as int) =~= p);
    assert((p + s).subrange(p.len() as int, (p + s).len() as int) =~= s);
}

} // verus!
