//! Character-level text handling: trimming, splitting, searching, padding and
//! decimal numbers.
use vstd::prelude::*;

verus! {

broadcast use vstd::string::group_string_axioms;

/// Unicode whitespace (the White_Space property): tab through carriage
/// return, space, next line, no-break space, ogham space mark, en quad through
/// hair space, line and paragraph separators, narrow no-break space, medium
/// mathematical space and ideographic space.
pub open spec fn is_ws(c: char) -> bool {
    c == ' ' || ('\t' <= c && c <= '\r') || c == '\u{85}' || c == '\u{a0}' || c == '\u{1680}'
        || ('\u{2000}' <= c && c <= '\u{200a}') || c == '\u{2028}' || c == '\u{2029}' || c
        == '\u{202f}' || c == '\u{205f}' || c == '\u{3000}'
}

/// The class of characters that trimming removes: whitespace when `ws`, else
/// the slash that prefixes container names.
pub open spec fn in_class(c: char, ws: bool) -> bool {
    if ws {
        is_ws(c)
    } else {
        c == '/'
    }
}

/// `s` without its leading characters of the class.
pub open spec fn drop_leading(s: Seq<char>, ws: bool) -> Seq<char>
    decreases s.len(),
{
    if s.len() > 0 && in_class(s[0], ws) {
        drop_leading(s.drop_first(), ws)
    } else {
        s
    }
}

/// `s` without its trailing characters of the class.
pub open spec fn drop_trailing(s: Seq<char>, ws: bool) -> Seq<char>
    decreases s.len(),
{
    if s.len() > 0 && in_class(s.last(), ws) {
        drop_trailing(s.drop_last(), ws)
    } else {
        s
    }
}

/// `s` without leading and trailing whitespace.
pub open spec fn trim(s: Seq<char>) -> Seq<char> {
    drop_trailing(drop_leading(s, true), true)
}

/// `s` without its leading slashes, as the runtime prefixes container names with one.
pub open spec fn strip_slashes(s: Seq<char>) -> Seq<char> {
    drop_leading(s, false)
}

/// Tests one character for whitespace.
pub fn is_ws_exec(c: char) -> (r: bool)
    ensures
        r == is_ws(c),
{
    c == ' ' || ('\t' <= c && c <= '\r') || c == '\u{85}' || c == '\u{a0}' || c == '\u{1680}'
        || ('\u{2000}' <= c && c <= '\u{200a}') || c == '\u{2028}' || c == '\u{2029}' || c
        == '\u{202f}' || c == '\u{205f}' || c == '\u{3000}'
}

fn in_class_exec(c: char, ws: bool) -> (r: bool)
    ensures
        r == in_class(c, ws),
{
    if ws {
        is_ws_exec(c)
    } else {
        c == '/'
    }
}

/// Skips the characters of the class at the front of `cs[lo..hi]`.
pub fn skip_leading(cs: &Vec<char>, lo: usize, hi: usize, ws: bool) -> (a: usize)
    requires
        lo <= hi <= cs@.len(),
    ensures
        lo <= a <= hi,
        cs@.subrange(a as int, hi as int) == drop_leading(cs@.subrange(lo as int, hi as int), ws),
{
    let mut a = lo;
    while a < hi && in_class_exec(cs[a], ws)
        invariant
            lo <= a <= hi <= cs@.len(),
            drop_leading(cs@.subrange(a as int, hi as int), ws) == drop_leading(
                cs@.subrange(lo as int, hi as int),
                ws,
            ),
        decreases hi - a,
    {
        assert(cs@.subrange(a as int, hi as int).drop_first() =~= cs@.subrange(a + 1, hi as int));
        a = a + 1;
    }
    a
}

/// Skips the characters of the class at the back of `cs[lo..hi]`.
pub fn skip_trailing(cs: &Vec<char>, lo: usize, hi: usize, ws: bool) -> (b: usize)
    requires
        lo <= hi <= cs@.len(),
    ensures
        lo <= b <= hi,
        cs@.subrange(lo as int, b as int) == drop_trailing(cs@.subrange(lo as int, hi as int), ws),
{
    let mut b = hi;
    while b > lo && in_class_exec(cs[b - 1], ws)
        invariant
            lo <= b <= hi <= cs@.len(),
            drop_trailing(cs@.subrange(lo as int, b as int), ws) == drop_trailing(
                cs@.subrange(lo as int, hi as int),
                ws,
            ),
        decreases b - lo,
    {
        assert(cs@.subrange(lo as int, b as int).drop_last() =~= cs@.subrange(lo as int, b - 1));
        b = b - 1;
    }
    b
}

/// The bounds of `trim(cs[lo..hi])` within `cs`.
pub fn trim_bounds(cs: &Vec<char>, lo: usize, hi: usize) -> (r: (usize, usize))
    requires
        lo <= hi <= cs@.len(),
    ensures
        lo <= r.0 <= r.1 <= hi,
        cs@.subrange(r.0 as int, r.1 as int) == trim(cs@.subrange(lo as int, hi as int)),
{
    let a = skip_leading(cs, lo, hi, true);
    let b = skip_trailing(cs, a, hi, true);
    (a, b)
}

/// The characters of `s`, in order.
pub fn chars_of(s: &str) -> (r: Vec<char>)
    ensures
        r@ == s@,
{
    let mut v: Vec<char> = Vec::new();
    for c in it: s.chars()
        invariant
            it.seq() == s@,
            v@ == it.seq().take(it.index() as int),
    {
        v.push(c);
    }
    v
}

/// The views of a sequence of strings.
pub open spec fn views(v: Seq<String>) -> Seq<Seq<char>> {
    v.map_values(|x: String| x@)
}

/// The fields of `s` that end before its last delimiter `d`, and the field after it.
pub open spec fn split_acc(s: Seq<char>, d: char) -> (Seq<Seq<char>>, Seq<char>)
    decreases s.len(),
{
    if s.len() == 0 {
        (Seq::empty(), Seq::empty())
    } else {
        let (done, cur) = split_acc(s.drop_last(), d);
        if s.last() == d {
            (done.push(cur), Seq::empty())
        } else {
            (done, cur.push(s.last()))
        }
    }
}

/// The fields of `s` between occurrences of `d`: one more than there are `d`s.
pub open spec fn split(s: Seq<char>, d: char) -> Seq<Seq<char>> {
    split_acc(s, d).0.push(split_acc(s, d).1)
}

/// The maximal runs of non-whitespace characters of `s` that end before its
/// last whitespace, and the run at its end.
pub open spec fn tokens_acc(s: Seq<char>) -> (Seq<Seq<char>>, Seq<char>)
    decreases s.len(),
{
    if s.len() == 0 {
        (Seq::empty(), Seq::empty())
    } else {
        let (done, cur) = tokens_acc(s.drop_last());
        if is_ws(s.last()) {
            if cur.len() > 0 {
                (done.push(cur), Seq::empty())
            } else {
                (done, Seq::empty())
            }
        } else {
            (done, cur.push(s.last()))
        }
    }
}

/// The maximal runs of non-whitespace characters of `s`, in order.
pub open spec fn tokens(s: Seq<char>) -> Seq<Seq<char>> {
    let (done, cur) = tokens_acc(s);
    if cur.len() > 0 {
        done.push(cur)
    } else {
        done
    }
}

/// `l` without one trailing carriage return.
pub open spec fn drop_cr(l: Seq<char>) -> Seq<char> {
    if l.len() > 0 && l.last() == '\r' {
        l.drop_last()
    } else {
        l
    }
}

/// The lines of `s`: split at each newline, with no empty line after a final
/// newline, and one carriage return at the end of each line removed (before
/// its newline, or at the end of the text).
pub open spec fn lines(s: Seq<char>) -> Seq<Seq<char>> {
    let parts = split(s, '\n');
    let kept = if parts.last().len() == 0 {
        parts.drop_last()
    } else {
        parts
    };
    kept.map_values(|l: Seq<char>| drop_cr(l))
}

/// The part `s[a..b]` as a string of its own.
pub fn slice_string(s: &str, a: usize, b: usize) -> (r: String)
    requires
        a <= b <= s@.len(),
    ensures
        r@ == s@.subrange(a as int, b as int),
{
    String::from_str(s.substring_char(a, b))
}

/// Splits `s` at each occurrence of `d`.
pub fn split_fields(s: &str, d: char) -> (r: Vec<String>)
    ensures
        views(r@) == split(s@, d),
{
    let cs = chars_of(s);
    let n = cs.len();
    let mut fields: Vec<String> = Vec::new();
    let mut start: usize = 0;
    let mut i: usize = 0;
    while i < n
        invariant
            cs@ == s@,
            n == cs@.len(),
            start <= i <= n,
            split_acc(s@.take(i as int), d) == (views(fields@), s@.subrange(start as int, i as int)),
        decreases n - i,
    {
        assert(s@.take(i + 1).drop_last() =~= s@.take(i as int));
        if cs[i] == d {
            let f = slice_string(s, start, i);
            let ghost before = fields@;
            fields.push(f);
            assert(views(fields@) =~= views(before).push(f@));
            start = i + 1;
        } else {
            assert(s@.subrange(start as int, i as int).push(cs@[i as int]) =~= s@.subrange(
                start as int,
                i + 1,
            ));
        }
        i = i + 1;
    }
    let last = slice_string(s, start, n);
    assert(s@.take(n as int) =~= s@);
    let ghost before = fields@;
    fields.push(last);
    assert(views(fields@) =~= views(before).push(last@));
    fields
}

/// Splits `s` into its maximal runs of non-whitespace characters.
pub fn split_tokens(s: &str) -> (r: Vec<String>)
    ensures
        views(r@) == tokens(s@),
{
    let cs = chars_of(s);
    let n = cs.len();
    let mut done: Vec<String> = Vec::new();
    let mut start: usize = 0;
    let mut i: usize = 0;
    while i < n
        invariant
            cs@ == s@,
            n == cs@.len(),
            start <= i <= n,
            tokens_acc(s@.take(i as int)) == (views(done@), s@.subrange(start as int, i as int)),
        decreases n - i,
    {
        assert(s@.take(i + 1).drop_last() =~= s@.take(i as int));
        if is_ws_exec(cs[i]) {
            if start < i {
                let t = slice_string(s, start, i);
                let ghost before = done@;
                done.push(t);
                assert(views(done@) =~= views(before).push(t@));
            }
            start = i + 1;
            assert(s@.subrange(start as int, i + 1) =~= Seq::<char>::empty());
        } else {
            assert(s@.subrange(start as int, i as int).push(cs@[i as int]) =~= s@.subrange(
                start as int,
                i + 1,
            ));
        }
        i = i + 1;
    }
    assert(s@.take(n as int) =~= s@);
    if start < n {
        let t = slice_string(s, start, n);
        let ghost before = done@;
        done.push(t);
        assert(views(done@) =~= views(before).push(t@));
    }
    done
}

/// Splits `s` into its lines.
pub fn split_lines(s: &str) -> (r: Vec<String>)
    ensures
        views(r@) == lines(s@),
{
    let parts = split_fields(s, '\n');
    let ghost ps = split(s@, '\n');
    let mut keep = parts.len();
    if keep > 0 && parts[keep - 1].as_str().unicode_len() == 0 {
        keep = keep - 1;
    }
    let ghost kept = ps.take(keep as int);
    assert(kept =~= (if ps.last().len() == 0 { ps.drop_last() } else { ps }));
    let mut out: Vec<String> = Vec::new();
    let mut i: usize = 0;
    while i < keep
        invariant
            views(parts@) == ps,
            keep <= parts@.len(),
            kept == ps.take(keep as int),
            i <= keep,
            views(out@) == kept.take(i as int).map_values(|l: Seq<char>| drop_cr(l)),
        decreases keep - i,
    {
        let part = parts[i].as_str();
        let len = part.unicode_len();
        let line = if len > 0 && part.get_char(len - 1) == '\r' {
            slice_string(part, 0, len - 1)
        } else {
            slice_string(part, 0, len)
        };
        assert(part@.subrange(0, len as int) =~= part@);
        assert(part@.subrange(0, len - 1) =~= part@.drop_last());
        let ghost before = out@;
        out.push(line);
        assert(views(out@) =~= views(before).push(line@));
        assert(kept.take(i + 1).map_values(|l: Seq<char>| drop_cr(l)) =~= kept.take(
            i as int,
        ).map_values(|l: Seq<char>| drop_cr(l)).push(drop_cr(kept[i as int])));
        i = i + 1;
    }
    assert(kept.take(keep as int) =~= kept);
    out
}

/// A container name as the runtime prints it: trimmed, without leading slashes.
pub open spec fn clean_name(s: Seq<char>) -> Seq<char> {
    strip_slashes(trim(s))
}

/// `s` without leading and trailing whitespace.
pub fn trimmed(s: &str) -> (r: String)
    ensures
        r@ == trim(s@),
{
    let cs = chars_of(s);
    let (a, b) = trim_bounds(&cs, 0, cs.len());
    assert(cs@.subrange(0, cs@.len() as int) =~= cs@);
    slice_string(s, a, b)
}

/// `s` trimmed, without the leading slashes of a container name.
pub fn cleaned_name(s: &str) -> (r: String)
    ensures
        r@ == clean_name(s@),
{
    let cs = chars_of(s);
    let (a, b) = trim_bounds(&cs, 0, cs.len());
    assert(cs@.subrange(0, cs@.len() as int) =~= cs@);
    let a2 = skip_leading(&cs, a, b, false);
    slice_string(s, a2, b)
}

/// Whether `pat` occurs in `s` at position `i`.
pub open spec fn occurs_at(s: Seq<char>, pat: Seq<char>, i: int) -> bool {
    0 <= i && i + pat.len() <= s.len() && s.subrange(i, i + pat.len()) == pat
}

/// Whether `pat` occurs in `s`.
pub open spec fn contains_seq(s: Seq<char>, pat: Seq<char>) -> bool {
    exists|i: int| occurs_at(s, pat, i)
}

fn occurs_at_exec(cs: &Vec<char>, ps: &Vec<char>, i: usize) -> (r: bool)
    requires
        i + ps@.len() <= cs@.len(),
    ensures
        r == occurs_at(cs@, ps@, i as int),
{
    let n = cs.len();
    let mut j: usize = 0;
    while j < ps.len()
        invariant
            n == cs@.len(),
            i + ps@.len() <= cs@.len(),
            j <= ps@.len(),
            forall|m: int| 0 <= m < j ==> cs@[i + m] == ps@[m],
        decreases ps@.len() - j,
    {
        if cs[i + j] != ps[j] {
            assert(cs@.subrange(i as int, i + ps@.len())[j as int] != ps@[j as int]);
            return false;
        }
        j = j + 1;
    }
    assert(cs@.subrange(i as int, i + ps@.len()) =~= ps@);
    true
}

/// Whether `pat` occurs in `s`.
pub fn contains_text(s: &str, pat: &str) -> (r: bool)
    ensures
        r == contains_seq(s@, pat@),
{
    let cs = chars_of(s);
    let ps = chars_of(pat);
    if ps.len() > cs.len() {
        return false;
    }
    let last = cs.len() - ps.len();
    let mut i: usize = 0;
    loop
        invariant
            cs@ == s@,
            ps@ == pat@,
            last == cs@.len() - ps@.len(),
            i <= last,
            forall|m: int| 0 <= m < i ==> !occurs_at(s@, pat@, m),
        ensures
            forall|m: int| 0 <= m <= last ==> !occurs_at(s@, pat@, m),
        decreases last - i,
    {
        if occurs_at_exec(&cs, &ps, i) {
            return true;
        }
        if i == last {
            break;
        }
        i = i + 1;
    }
    assert forall|m: int| !occurs_at(s@, pat@, m) by {
        if 0 <= m && m + pat@.len() <= s@.len() {
            assert(m <= last);
        }
    }
    false
}

/// A character with ASCII upper case letters mapped to lower case, as a code point.
pub open spec fn fold_case(c: char) -> int {
    if 'A' <= c && c <= 'Z' {
        (c as u32) + 32
    } else {
        c as u32 as int
    }
}

/// Whether `a` and `b` are equal but for the case of ASCII letters.
pub open spec fn eq_ignore_case(a: Seq<char>, b: Seq<char>) -> bool {
    a.len() == b.len() && forall|i: int| 0 <= i < a.len() ==> fold_case(a[i]) == fold_case(b[i])
}

fn fold_case_exec(c: char) -> (r: u32)
    ensures
        r == fold_case(c),
{
    if 'A' <= c && c <= 'Z' {
        (c as u32) + 32
    } else {
        c as u32
    }
}

/// Whether `a` and `b` are equal but for the case of ASCII letters.
pub fn eq_ignore_case_exec(a: &str, b: &str) -> (r: bool)
    ensures
        r == eq_ignore_case(a@, b@),
{
    let ac = chars_of(a);
    let bc = chars_of(b);
    if ac.len() != bc.len() {
        return false;
    }
    let mut i: usize = 0;
    while i < ac.len()
        invariant
            ac@ == a@,
            bc@ == b@,
            ac@.len() == bc@.len(),
            i <= ac@.len(),
            forall|m: int| 0 <= m < i ==> fold_case(a@[m]) == fold_case(b@[m]),
        decreases ac@.len() - i,
    {
        if fold_case_exec(ac[i]) != fold_case_exec(bc[i]) {
            return false;
        }
        i = i + 1;
    }
    true
}

/// `n` spaces.
pub open spec fn spaces(n: nat) -> Seq<char> {
    Seq::new(n, |i: int| ' ')
}

/// `s` padded with spaces on the right to at least `width` characters.
pub open spec fn pad_right(s: Seq<char>, width: nat) -> Seq<char> {
    if s.len() < width {
        s + spaces((width - s.len()) as nat)
    } else {
        s
    }
}

/// Pads `s` with spaces on the right to at least `width` characters.
pub fn padded(s: &str, width: usize) -> (r: String)
    ensures
        r@ == pad_right(s@, width as nat),
{
    let n = s.unicode_len();
    let mut r = String::from_str(s);
    let mut k: usize = n;
    proof {
        reveal_strlit(" ");
    }
    while k < width
        invariant
            n == s@.len(),
            " "@ == seq![' '],
            n < width ==> k <= width,
            n >= width ==> k == n,
            k >= n,
            r@ == s@ + spaces((k - n) as nat),
        decreases width - k,
    {
        r.append(" ");
        k = k + 1;
        assert(r@ =~= s@ + spaces((k - n) as nat));
    }
    if n >= width {
        assert(k == n);
        assert(r@ =~= s@);
    }
    r
}

/// The decimal digits of `n`.
pub open spec fn decimal(n: nat) -> Seq<char>
    decreases n,
{
    if n < 10 {
        seq![digit_char(n)]
    } else {
        decimal(n / 10).push(digit_char(n % 10))
    }
}

/// The character of a digit below ten.
pub open spec fn digit_char(d: nat) -> char {
    if d == 0 {
        '0'
    } else if d == 1 {
        '1'
    } else if d == 2 {
        '2'
    } else if d == 3 {
        '3'
    } else if d == 4 {
        '4'
    } else if d == 5 {
        '5'
    } else if d == 6 {
        '6'
    } else if d == 7 {
        '7'
    } else if d == 8 {
        '8'
    } else {
        '9'
    }
}

fn digit_str(d: u32) -> (r: &'static str)
    requires
        d < 10,
    ensures
        r@ == seq![digit_char(d as nat)],
{
    proof {
        reveal_strlit("0");
        reveal_strlit("1");
        reveal_strlit("2");
        reveal_strlit("3");
        reveal_strlit("4");
        reveal_strlit("5");
        reveal_strlit("6");
        reveal_strlit("7");
        reveal_strlit("8");
        reveal_strlit("9");
    }
    if d == 0 {
        "0"
    } else if d == 1 {
        "1"
    } else if d == 2 {
        "2"
    } else if d == 3 {
        "3"
    } else if d == 4 {
        "4"
    } else if d == 5 {
        "5"
    } else if d == 6 {
        "6"
    } else if d == 7 {
        "7"
    } else if d == 8 {
        "8"
    } else {
        "9"
    }
}

/// The decimal representation of `n`.
pub fn decimal_string(n: u32) -> (r: String)
    ensures
        r@ == decimal(n as nat),
    decreases n,
{
    if n < 10 {
        String::from_str(digit_str(n))
    } else {
        let head = decimal_string(n / 10);
        head.concat(digit_str(n % 10))
    }
}

/// Whether no character of `s` is whitespace.
pub open spec fn no_ws(s: Seq<char>) -> bool {
    forall|i: int| 0 <= i < s.len() ==> !is_ws(#[trigger] s[i])
}

/// Whether every character of `s` is whitespace.
pub open spec fn all_ws(s: Seq<char>) -> bool {
    forall|i: int| 0 <= i < s.len() ==> is_ws(#[trigger] s[i])
}

/// The fields `fs` joined with the delimiter `d` between each two.
pub open spec fn join_fields(fs: Seq<Seq<char>>, d: char) -> Seq<char>
    decreases fs.len(),
{
    if fs.len() == 0 {
        Seq::empty()
    } else if fs.len() == 1 {
        fs[0]
    } else {
        join_fields(fs.drop_last(), d).push(d) + fs.last()
    }
}

/// Non-whitespace characters extend the current run.
pub proof fn lemma_tokens_run(p: Seq<char>, y: Seq<char>)
    requires
        no_ws(y),
    ensures
        tokens_acc(p + y) == (tokens_acc(p).0, tokens_acc(p).1 + y),
    decreases y.len(),
{
    if y.len() == 0 {
        assert(p + y =~= p);
        assert(tokens_acc(p).1 + y =~= tokens_acc(p).1);
    } else {
        let y2 = y.drop_last();
        lemma_tokens_run(p, y2);
        assert((p + y).drop_last() =~= p + y2);
        assert((p + y).last() == y.last());
        assert(!is_ws(y[y.len() - 1]));
        assert((tokens_acc(p).1 + y2).push(y.last()) =~= tokens_acc(p).1 + y);
    }
}

/// Whitespace ends the current run.
pub proof fn lemma_tokens_gap(p: Seq<char>, w: Seq<char>)
    requires
        w.len() > 0,
        all_ws(w),
    ensures
        tokens_acc(p + w) == (
            if tokens_acc(p).1.len() > 0 {
                tokens_acc(p).0.push(tokens_acc(p).1)
            } else {
                tokens_acc(p).0
            },
            Seq::<char>::empty(),
        ),
    decreases w.len(),
{
    let w2 = w.drop_last();
    assert((p + w).drop_last() =~= p + w2);
    assert((p + w).last() == w.last());
    assert(is_ws(w[w.len() - 1]));
    if w2.len() == 0 {
        assert(p + w2 =~= p);
    } else {
        lemma_tokens_gap(p, w2);
    }
}

/// Characters other than the delimiter extend the current field.
pub proof fn lemma_split_run(p: Seq<char>, y: Seq<char>, d: char)
    requires
        !y.contains(d),
    ensures
        split_acc(p + y, d) == (split_acc(p, d).0, split_acc(p, d).1 + y),
    decreases y.len(),
{
    if y.len() == 0 {
        assert(p + y =~= p);
        assert(split_acc(p, d).1 + y =~= split_acc(p, d).1);
    } else {
        let y2 = y.drop_last();
        assert(!y2.contains(d)) by {
            if y2.contains(d) {
                let i = choose|i: int| 0 <= i < y2.len() && y2[i] == d;
                assert(y[i] == d);
            }
        }
        lemma_split_run(p, y2, d);
        assert((p + y).drop_last() =~= p + y2);
        assert((p + y).last() == y.last());
        assert(y[y.len() - 1] != d);
        assert((split_acc(p, d).1 + y2).push(y.last()) =~= split_acc(p, d).1 + y);
    }
}

/// Splitting the join of fields that hold no delimiter gives the fields back.
pub proof fn lemma_split_join(fs: Seq<Seq<char>>, d: char)
    requires
        fs.len() >= 1,
        forall|i: int| 0 <= i < fs.len() ==> !(#[trigger] fs[i]).contains(d),
    ensures
        split_acc(join_fields(fs, d), d) == (fs.drop_last(), fs.last()),
        split(join_fields(fs, d), d) == fs,
    decreases fs.len(),
{
    if fs.len() == 1 {
        lemma_split_run(Seq::empty(), fs[0], d);
        assert(Seq::<char>::empty() + fs[0] =~= fs[0]);
        assert(fs.drop_last() =~= Seq::<Seq<char>>::empty());
    } else {
        let f2 = fs.drop_last();
        lemma_split_join(f2, d);
        let j = join_fields(f2, d);
        assert(j.push(d).drop_last() =~= j);
        lemma_split_run(j.push(d), fs.last(), d);
        assert(f2.drop_last().push(f2.last()) =~= f2);
        assert(Seq::<char>::empty() + fs.last() =~= fs.last());
    }
    assert(split(join_fields(fs, d), d) =~= fs);
}

/// Trimming leaves a sequence with no whitespace as it is.
pub proof fn lemma_trim_no_ws(s: Seq<char>)
    requires
        no_ws(s),
    ensures
        trim(s) == s,
{
    if s.len() > 0 {
        assert(!is_ws(s[0]));
        assert(!is_ws(s[s.len() - 1]));
    }
}

/// A name free of whitespace that does not start with a slash is its own
/// clean name.
pub proof fn lemma_clean_plain_name(n: Seq<char>)
    requires
        no_ws(n),
        n.len() > 0,
        n[0] != '/',
    ensures
        clean_name(n) == n,
{
    lemma_trim_no_ws(n);
}

/// What the runtime prints for a container's name, a slash, the name and a
/// newline, cleans to the name, for a name free of whitespace that does not
/// start with a slash.
pub proof fn lemma_clean_printed_name(n: Seq<char>)
    requires
        no_ws(n),
        n.len() > 0,
        n[0] != '/',
    ensures
        clean_name(seq!['/'] + n + seq!['\n']) == n,
{
    let x = seq!['/'] + n + seq!['\n'];
    let y = seq!['/'] + n;
    assert(x[0] == '/');
    assert(drop_leading(x, true) == x);
    assert(x.drop_last() =~= y);
    assert(x.last() == '\n');
    assert(y.last() == n[n.len() - 1]);
    assert(drop_trailing(y, true) == y);
    assert(drop_trailing(x, true) == y);
    assert(y.drop_first() =~= n);
    assert(drop_leading(n, false) == n);
}

} // verus!
