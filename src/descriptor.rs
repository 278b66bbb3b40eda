//! The compact font descriptor: `<family-and-options>[:size=<n>]`.
use vstd::prelude::*;

verus! {

/// The point size used when a descriptor names none, or none that parses.
pub const DEFAULT_SIZE: usize = 12;

pub open spec fn is_sep(c: char, eq_too: bool) -> bool {
    c == ':' || (eq_too && c == '=')
}

/// The pieces of `s` between separators (`:`, and `=` too when `eq_too`),
/// in order, empty pieces included.
pub open spec fn split(s: Seq<char>, eq_too: bool) -> Seq<Seq<char>>
    decreases s.len(),
{
    if s.len() == 0 {
        seq![Seq::<char>::empty()]
    } else {
        let pre = split(s.drop_last(), eq_too);
        if is_sep(s.last(), eq_too) {
            pre.push(Seq::<char>::empty())
        } else {
            pre.update(pre.len() - 1, pre.last().push(s.last()))
        }
    }
}

/// `t` occurs in `s` as a contiguous run.
pub open spec fn contains(s: Seq<char>, t: Seq<char>) -> bool {
    exists|k: int| 0 <= k && k + t.len() <= s.len() && #[trigger] s.subrange(k, k + t.len()) == t
}

pub open spec fn size_word() -> Seq<char> {
    seq!['s', 'i', 'z', 'e']
}

pub open spec fn size_assign_word() -> Seq<char> {
    seq!['s', 'i', 'z', 'e', '=']
}

/// The segments that do not carry an explicit size assignment.
pub open spec fn kept(segs: Seq<Seq<char>>) -> Seq<Seq<char>>
    decreases segs.len(),
{
    if segs.len() == 0 {
        segs
    } else if contains(segs.last(), size_assign_word()) {
        kept(segs.drop_last())
    } else {
        kept(segs.drop_last()).push(segs.last())
    }
}

/// The segments joined with `:` between neighbours.
pub open spec fn join(segs: Seq<Seq<char>>) -> Seq<char>
    decreases segs.len(),
{
    if segs.len() == 0 {
        Seq::<char>::empty()
    } else if segs.len() == 1 {
        segs[0]
    } else {
        join(segs.drop_last()).push(':') + segs.last()
    }
}

/// The descriptor with every `:`-segment holding `size=` removed.
pub open spec fn base_name(s: Seq<char>) -> Seq<char> {
    join(kept(split(s, false)))
}

/// The segment that follows the first segment holding `size`, if any.
pub open spec fn segment_after_size(segs: Seq<Seq<char>>, i: int) -> Option<Seq<char>>
    decreases segs.len() - i,
{
    if i < 0 || i + 1 >= segs.len() {
        None
    } else if contains(segs[i], size_word()) {
        Some(segs[i + 1])
    } else {
        segment_after_size(segs, i + 1)
    }
}

pub open spec fn is_digit(c: char) -> bool {
    48 <= (c as u32) && (c as u32) <= 57
}

pub open spec fn digit_value(c: char) -> nat {
    ((c as u32) - 48) as nat
}

/// The value of a run of decimal digits, most significant first.
pub open spec fn digits_value(d: Seq<char>) -> nat
    decreases d.len(),
{
    if d.len() == 0 {
        0
    } else {
        digits_value(d.drop_last()) * 10 + digit_value(d.last())
    }
}

pub open spec fn all_digits(d: Seq<char>) -> bool {
    forall|i: int| 0 <= i < d.len() ==> is_digit(#[trigger] d[i])
}

/// The text with one leading `+` sign removed.
pub open spec fn unsigned_part(seg: Seq<char>) -> Seq<char> {
    if seg.len() > 0 && seg[0] == '+' {
        seg.drop_first()
    } else {
        seg
    }
}

/// An unsigned decimal number: an optional `+`, then one or more digits.
pub open spec fn number_of(seg: Seq<char>) -> Option<nat> {
    let d = unsigned_part(seg);
    if d.len() > 0 && all_digits(d) {
        Some(digits_value(d))
    } else {
        None
    }
}

/// A number that is at least one and fits a `usize`.
pub open spec fn positive_number(seg: Seq<char>) -> Option<usize> {
    match number_of(seg) {
        Some(n) => if 1 <= n && n <= usize::MAX {
            Some(n as usize)
        } else {
            None
        },
        None => None,
    }
}

/// The point size a descriptor asks for.
pub open spec fn size_from_text(s: Seq<char>) -> usize {
    match segment_after_size(split(s, true), 0) {
        Some(seg) => match positive_number(seg) {
            Some(n) => n,
            None => DEFAULT_SIZE,
        },
        None => DEFAULT_SIZE,
    }
}

pub open spec fn digit_char(d: nat) -> char {
    seq!['0', '1', '2', '3', '4', '5', '6', '7', '8', '9'][d as int]
}

/// The shortest decimal form of `n`.
pub open spec fn decimal(n: nat) -> Seq<char>
    decreases n,
{
    if n < 10 {
        seq![digit_char(n)]
    } else {
        decimal(n / 10).push(digit_char(n % 10))
    }
}

pub open spec fn size_suffix() -> Seq<char> {
    seq![':', 's', 'i', 'z', 'e', '=']
}

/// The canonical matching string: the base name, then `:size=<n>`.
pub open spec fn serialized(name: Seq<char>, size: nat) -> Seq<char> {
    name + size_suffix() + decimal(size)
}

pub open spec fn views(v: Seq<Vec<char>>) -> Seq<Seq<char>> {
    v.map_values(|x: Vec<char>| x@)
}

/// Relies on String::push: the character is appended.
#[verifier::external_body]
fn push_char(s: &mut String, c: char)
    ensures
        final(s)@ == old(s)@.push(c),
{
    s.push(c)
}

fn push_all(out: &mut String, text: &Vec<char>)
    ensures
        final(out)@ == old(out)@ + text@,
{
    let ghost start = out@;
    let mut j: usize = 0;
    while j < text.len()
        invariant
            j <= text.len(),
            out@ == start + text@.subrange(0, j as int),
        decreases text.len() - j,
    {
        push_char(out, text[j]);
        j = j + 1;
        assert(text@.subrange(0, j as int) =~= text@.subrange(0, j - 1).push(text@[j - 1]));
    }
    assert(text@.subrange(0, j as int) =~= text@);
}

fn chars_of(s: &str) -> (r: Vec<char>)
    ensures
        r@ == s@,
{
    let n = s.unicode_len();
    let mut r: Vec<char> = Vec::new();
    let mut i: usize = 0;
    while i < n
        invariant
            n == s@.len(),
            i <= n,
            r@ == s@.subrange(0, i as int),
        decreases n - i,
    {
        r.push(s.get_char(i));
        i = i + 1;
        assert(r@ =~= s@.subrange(0, i as int));
    }
    assert(r@ =~= s@);
    r
}

proof fn lemma_split_nonempty(s: Seq<char>, eq_too: bool)
    ensures
        split(s, eq_too).len() >= 1,
    decreases s.len(),
{
    if s.len() > 0 {
        lemma_split_nonempty(s.drop_last(), eq_too);
    }
}

fn split_chars(s: &Vec<char>, eq_too: bool) -> (r: Vec<Vec<char>>)
    ensures
        views(r@) == split(s@, eq_too),
{
    let mut segs: Vec<Vec<char>> = Vec::new();
    let mut cur: Vec<char> = Vec::new();
    let mut i: usize = 0;
    while i < s.len()
        invariant
            i <= s.len(),
            views(segs@).push(cur@) == split(s@.subrange(0, i as int), eq_too),
        decreases s.len() - i,
    {
        let c = s[i];
        let ghost pre = s@.subrange(0, i as int);
        let ghost next = s@.subrange(0, i + 1);
        assert(next.drop_last() =~= pre);
        proof {
            lemma_split_nonempty(pre, eq_too);
        }
        if c == ':' || (eq_too && c == '=') {
            segs.push(cur);
            cur = Vec::new();
            assert(views(segs@).push(cur@) =~= split(next, eq_too));
        } else {
            cur.push(c);
            assert(views(segs@).push(cur@) =~= split(next, eq_too));
        }
        i = i + 1;
    }
    assert(s@.subrange(0, s@.len() as int) =~= s@);
    segs.push(cur);
    assert(views(segs@) =~= split(s@, eq_too));
    segs
}

fn seg_contains(s: &Vec<char>, t: &Vec<char>) -> (r: bool)
    ensures
        r == contains(s@, t@),
{
    if t.len() > s.len() {
        return false;
    }
    let last = s.len() - t.len();
    let mut k: usize = 0;
    while k <= last
        invariant
            last == s.len() - t.len(),
            k <= last + 1,
            forall|k2: int| 0 <= k2 < k ==> #[trigger] s@.subrange(k2, k2 + t@.len()) != t@,
        decreases last + 1 - k,
    {
        let mut j: usize = 0;
        let mut same = true;
        while j < t.len() && same
            invariant
                k <= last,
                last == s.len() - t.len(),
                j <= t.len(),
                same ==> forall|j2: int| 0 <= j2 < j ==> s@[k + j2] == t@[j2],
                !same ==> s@[k + j - 1] != t@[j - 1] && j >= 1,
            decreases t.len() - j,
        {
            if s[k + j] != t[j] {
                same = false;
            }
            j = j + 1;
        }
        if same {
            assert(s@.subrange(k as int, k + t@.len()) =~= t@);
            return true;
        }
        assert(s@.subrange(k as int, k + t@.len())[j - 1] != t@[j - 1]);
        k = k + 1;
    }
    assert forall|k2: int| 0 <= k2 && k2 + t@.len() <= s@.len() implies #[trigger] s@.subrange(k2, k2 + t@.len()) != t@ by {
        assert(k2 < k);
    }
    false
}

fn positive_of(seg: &Vec<char>) -> (r: Option<usize>)
    ensures
        r == positive_number(seg@),
{
    let st: usize = if seg.len() > 0 && seg[0] == '+' { 1 } else { 0 };
    let ghost d = unsigned_part(seg@);
    assert(d =~= seg@.subrange(st as int, seg@.len() as int));
    if st == seg.len() {
        return None;
    }
    let mut acc: usize = 0;
    let mut too_big = false;
    let mut j: usize = st;
    while j < seg.len()
        invariant
            st <= j <= seg.len(),
            st < seg.len(),
            d == unsigned_part(seg@),
            d =~= seg@.subrange(st as int, seg@.len() as int),
            all_digits(d.subrange(0, j - st)),
            too_big ==> digits_value(d.subrange(0, j - st)) > usize::MAX,
            !too_big ==> acc == digits_value(d.subrange(0, j - st)),
        decreases seg.len() - j,
    {
        let c = seg[j];
        if !((c as u32) >= 48 && (c as u32) <= 57) {
            assert(d[j - st] == c);
            assert(!is_digit(d[j - st]));
            assert(!all_digits(d));
            return None;
        }
        let dv = ((c as u32) - 48) as usize;
        let ghost pre = d.subrange(0, j - st);
        let ghost next = d.subrange(0, j + 1 - st);
        assert(next.drop_last() =~= pre);
        assert(next.last() == c);
        assert(digits_value(next) == digits_value(pre) * 10 + dv);
        if !too_big {
            if acc > (usize::MAX - dv) / 10 {
                too_big = true;
                assert(digits_value(pre) * 10 + dv > usize::MAX) by (nonlinear_arith)
                    requires
                        digits_value(pre) == acc,
                        acc > (usize::MAX - dv) / 10,
                        dv <= 9,
                ;
            } else {
                assert(acc * 10 + dv <= usize::MAX) by (nonlinear_arith)
                    requires
                        acc <= (usize::MAX - dv) / 10,
                        dv <= 9,
                ;
                acc = acc * 10 + dv;
            }
        } else {
            assert(digits_value(pre) * 10 + dv >= digits_value(pre)) by (nonlinear_arith);
        }
        j = j + 1;
        assert(all_digits(next));
    }
    assert(d.subrange(0, j - st) =~= d);
    if too_big || acc == 0 {
        None
    } else {
        Some(acc)
    }
}

/// A font descriptor: a base name (family and style options, no size) and a
/// point size.
pub struct Xft {
    pub name: String,
    pub size: usize,
}

impl Xft {
    /// Reads a descriptor string: its base name, and its size or the default.
    pub fn new(name: &str) -> (r: Xft)
        ensures
            r.name@ == base_name(name@),
            r.size == size_from_text(name@),
            r.size >= 1,
    {
        Xft { name: Self::remove_size(name), size: Self::parse_size(name) }
    }

    /// The canonical matching string, `<name>:size=<size>`.
    pub fn serialize(&self) -> (r: String)
        ensures
            r@ == serialized(self.name@, self.size as nat),
    {
        let mut out = self.name.clone();
        let suffix: Vec<char> = vec![':', 's', 'i', 'z', 'e', '='];
        assert(suffix@ =~= size_suffix());
        push_all(&mut out, &suffix);
        push_decimal(&mut out, self.size);
        out
    }

    /// The point size a descriptor asks for: the segment (splitting on `:`
    /// and `=`) right after the first one holding `size`, read as a positive
    /// number; the default where there is none or it does not read.
    pub fn parse_size(name: &str) -> (r: usize)
        ensures
            r == size_from_text(name@),
            r >= 1,
    {
        let text = chars_of(name);
        let segs = split_chars(&text, true);
        let word: Vec<char> = vec!['s', 'i', 'z', 'e'];
        assert(word@ =~= size_word());
        let ghost sv = views(segs@);
        proof {
            lemma_split_nonempty(text@, true);
        }
        let mut i: usize = 0;
        while i < segs.len() - 1
            invariant
                sv == views(segs@),
                sv == split(text@, true),
                text@ == name@,
                word@ == size_word(),
                segs.len() >= 1,
                i < segs.len(),
                segment_after_size(sv, 0) == segment_after_size(sv, i as int),
            decreases segs.len() - i,
        {
            assert(sv[i as int] == segs@[i as int]@);
            if seg_contains(&segs[i], &word) {
                assert(sv[i as int] == segs@[i as int]@);
                assert(sv[i + 1] == segs@[i + 1]@);
                assert(segment_after_size(sv, i as int) == Some(sv[i + 1]));
                let p = positive_of(&segs[i + 1]);
                assert(p == positive_number(sv[i + 1]));
                assert(segment_after_size(sv, 0) == Some(sv[i + 1]));
                return match p {
                    Some(n) => n,
                    None => DEFAULT_SIZE,
                };
            }
            i = i + 1;
        }
        assert(segment_after_size(sv, i as int) is None);
        DEFAULT_SIZE
    }

    /// The descriptor with every `:`-segment that holds `size=` dropped, the
    /// others joined again with `:` in their order.
    pub fn remove_size(name: &str) -> (r: String)
        ensures
            r@ == base_name(name@),
    {
        let text = chars_of(name);
        let segs = split_chars(&text, false);
        let word: Vec<char> = vec!['s', 'i', 'z', 'e', '='];
        assert(word@ =~= size_assign_word());
        let ghost sv = views(segs@);
        let mut out = String::new();
        let mut any = false;
        let mut i: usize = 0;
        while i < segs.len()
            invariant
                sv == views(segs@),
                sv == split(text@, false),
                text@ == name@,
                word@ == size_assign_word(),
                i <= segs.len(),
                out@ == join(kept(sv.subrange(0, i as int))),
                any == (kept(sv.subrange(0, i as int)).len() > 0),
            decreases segs.len() - i,
        {
            let ghost pre = sv.subrange(0, i as int);
            let ghost next = sv.subrange(0, i + 1);
            assert(next.drop_last() =~= pre);
            if !seg_contains(&segs[i], &word) {
                if any {
                    push_char(&mut out, ':');
                }
                push_all(&mut out, &segs[i]);
                any = true;
                assert(kept(next) == kept(pre).push(sv[i as int]));
                assert(kept(next).drop_last() =~= kept(pre));
            }
            i = i + 1;
        }
        assert(sv.subrange(0, i as int) =~= sv);
        out
    }
}

fn push_decimal(out: &mut String, n: usize)
    ensures
        final(out)@ == old(out)@ + decimal(n as nat),
    decreases n,
{
    let digits: Vec<char> = vec!['0', '1', '2', '3', '4', '5', '6', '7', '8', '9'];
    assert(digits@ =~= seq!['0', '1', '2', '3', '4', '5', '6', '7', '8', '9']);
    if n >= 10 {
        push_decimal(out, n / 10);
    }
    push_char(out, digits[n % 10]);
    assert(out@ =~= old(out)@ + decimal(n as nat));
}

proof fn lemma_split_concat(a: Seq<char>, c: char, b: Seq<char>, eq_too: bool)
    requires
        is_sep(c, eq_too),
    ensures
        split(a + seq![c] + b, eq_too) == split(a, eq_too) + split(b, eq_too),
    decreases b.len(),
{
    let s = a + seq![c] + b;
    if b.len() == 0 {
        assert(s.drop_last() =~= a);
        assert(split(s, eq_too) =~= split(a, eq_too) + split(b, eq_too));
    } else {
        let b2 = b.drop_last();
        lemma_split_concat(a, c, b2, eq_too);
        lemma_split_nonempty(b2, eq_too);
        assert(s.drop_last() =~= a + seq![c] + b2);
        assert(s.last() == b.last());
        assert(split(s, eq_too) =~= split(a, eq_too) + split(b, eq_too));
    }
}

proof fn lemma_split_plain(s: Seq<char>, eq_too: bool)
    requires
        forall|j: int| 0 <= j < s.len() ==> !is_sep(#[trigger] s[j], eq_too),
    ensures
        split(s, eq_too) == seq![s],
    decreases s.len(),
{
    if s.len() == 0 {
        assert(s =~= Seq::<char>::empty());
    } else {
        let p = s.drop_last();
        assert forall|j: int| 0 <= j < p.len() implies !is_sep(#[trigger] p[j], eq_too) by {
            assert(p[j] == s[j]);
        }
        assert(!is_sep(s[s.len() - 1], eq_too));
        lemma_split_plain(p, eq_too);
        assert(p.push(s.last()) =~= s);
        assert(split(s, eq_too) =~= seq![s]);
    }
}

proof fn lemma_split_free(s: Seq<char>, eq_too: bool)
    ensures
        forall|i: int, j: int|
            0 <= i < split(s, eq_too).len() && 0 <= j < split(s, eq_too)[i].len() ==> !is_sep(
                #[trigger] split(s, eq_too)[i][j],
                eq_too,
            ),
    decreases s.len(),
{
    if s.len() > 0 {
        lemma_split_free(s.drop_last(), eq_too);
        lemma_split_nonempty(s.drop_last(), eq_too);
    }
}

proof fn lemma_split_suffix(s: Seq<char>, eq_too: bool)
    ensures
        split(s, eq_too).last().len() <= s.len(),
        s.subrange(s.len() - split(s, eq_too).last().len(), s.len() as int) == split(s, eq_too).last(),
    decreases s.len(),
{
    lemma_split_nonempty(s, eq_too);
    if s.len() == 0 {
        assert(s.subrange(0, 0) =~= split(s, eq_too).last());
    } else {
        let p = s.drop_last();
        lemma_split_suffix(p, eq_too);
        lemma_split_nonempty(p, eq_too);
        let l = split(s, eq_too).last();
        if is_sep(s.last(), eq_too) {
            assert(s.subrange(s.len() - l.len(), s.len() as int) =~= l);
        } else {
            let lp = split(p, eq_too).last();
            assert(p.subrange(p.len() - lp.len(), p.len() as int) == lp);
            assert(s.subrange(s.len() - l.len(), s.len() as int) =~= lp.push(s.last()));
        }
    }
}

proof fn lemma_contains_within(s: Seq<char>, a: int, b: int, t: Seq<char>)
    requires
        0 <= a <= b <= s.len(),
        contains(s.subrange(a, b), t),
    ensures
        contains(s, t),
{
    let x = s.subrange(a, b);
    let k = choose|k: int| 0 <= k && k + t.len() <= x.len() && #[trigger] x.subrange(k, k + t.len()) == t;
    assert(s.subrange(a + k, a + k + t.len()) =~= x.subrange(k, k + t.len()));
}

proof fn lemma_split_contains(s: Seq<char>, eq_too: bool, t: Seq<char>, i: int)
    requires
        t.len() > 0,
        0 <= i < split(s, eq_too).len(),
        contains(split(s, eq_too)[i], t),
    ensures
        contains(s, t),
    decreases s.len(),
{
    if s.len() > 0 {
        let p = s.drop_last();
        let pre = split(p, eq_too);
        lemma_split_nonempty(p, eq_too);
        assert(s.subrange(0, p.len() as int) =~= p);
        if is_sep(s.last(), eq_too) {
            if i < pre.len() {
                lemma_split_contains(p, eq_too, t, i);
                lemma_contains_within(s, 0, p.len() as int, t);
            }
        } else if i < pre.len() - 1 {
            lemma_split_contains(p, eq_too, t, i);
            lemma_contains_within(s, 0, p.len() as int, t);
        } else {
            lemma_split_suffix(s, eq_too);
            let l = split(s, eq_too).last();
            lemma_contains_within(s, s.len() - l.len(), s.len() as int, t);
        }
    }
}

proof fn lemma_join_split(segs: Seq<Seq<char>>)
    requires
        segs.len() >= 1,
        forall|i: int, j: int|
            0 <= i < segs.len() && 0 <= j < segs[i].len() ==> #[trigger] segs[i][j] != ':',
    ensures
        split(join(segs), false) == segs,
    decreases segs.len(),
{
    if segs.len() == 1 {
        lemma_split_plain(segs[0], false);
        assert(seq![segs[0]] =~= segs);
    } else {
        let d = segs.drop_last();
        assert forall|i: int, j: int| 0 <= i < d.len() && 0 <= j < d[i].len() implies #[trigger] d[i][j] != ':' by {
            assert(d[i] == segs[i]);
        }
        lemma_join_split(d);
        assert forall|j: int| 0 <= j < segs.last().len() implies !is_sep(#[trigger] segs.last()[j], false) by {
            assert(segs[segs.len() - 1][j] != ':');
        }
        lemma_split_plain(segs.last(), false);
        assert(join(d).push(':') + segs.last() =~= join(d) + seq![':'] + segs.last());
        lemma_split_concat(join(d), ':', segs.last(), false);
        assert(d + seq![segs.last()] =~= segs);
    }
}

proof fn lemma_kept(segs: Seq<Seq<char>>)
    ensures
        forall|i: int| 0 <= i < kept(segs).len() ==> !contains(#[trigger] kept(segs)[i], size_assign_word()),
        forall|i: int| 0 <= i < kept(segs).len() ==> exists|j: int| 0 <= j < segs.len() && segs[j] == #[trigger] kept(segs)[i],
        (forall|i: int| 0 <= i < segs.len() ==> !contains(#[trigger] segs[i], size_assign_word())) ==> kept(segs) == segs,
    decreases segs.len(),
{
    if segs.len() > 0 {
        let d = segs.drop_last();
        lemma_kept(d);
        assert forall|i: int| 0 <= i < kept(segs).len() implies exists|j: int| 0 <= j < segs.len() && segs[j] == #[trigger] kept(segs)[i] by {
            if i < kept(d).len() {
                let j = choose|j: int| 0 <= j < d.len() && d[j] == kept(d)[i];
                assert(segs[j] == kept(segs)[i]);
            } else {
                assert(segs[segs.len() - 1] == kept(segs)[i]);
            }
        }
        if forall|i: int| 0 <= i < segs.len() ==> !contains(#[trigger] segs[i], size_assign_word()) {
            assert forall|i: int| 0 <= i < d.len() implies !contains(#[trigger] d[i], size_assign_word()) by {
                assert(d[i] == segs[i]);
            }
            assert(!contains(segs[segs.len() - 1], size_assign_word()));
            assert(d.push(segs.last()) =~= segs);
        }
    }
}

proof fn lemma_digit_char(n: nat)
    requires
        n < 10,
    ensures
        is_digit(digit_char(n)),
        digit_value(digit_char(n)) == n,
{
    let t = seq!['0', '1', '2', '3', '4', '5', '6', '7', '8', '9'];
    assert(t[0] == '0' && t[1] == '1' && t[2] == '2' && t[3] == '3' && t[4] == '4');
    assert(t[5] == '5' && t[6] == '6' && t[7] == '7' && t[8] == '8' && t[9] == '9');
}

proof fn lemma_decimal(n: nat)
    ensures
        decimal(n).len() > 0,
        all_digits(decimal(n)),
        digits_value(decimal(n)) == n,
    decreases n,
{
    lemma_digit_char(n % 10);
    if n < 10 {
        assert(decimal(n).drop_last() =~= Seq::<char>::empty());
        assert(decimal(n).last() == digit_char(n));
        assert(digits_value(decimal(n)) == digits_value(Seq::<char>::empty()) * 10 + digit_value(digit_char(n)));
    } else {
        lemma_decimal(n / 10);
        assert(decimal(n) == decimal(n / 10).push(digit_char(n % 10)));
        assert(decimal(n).drop_last() =~= decimal(n / 10));
        assert(decimal(n).last() == digit_char(n % 10));
        assert(digits_value(decimal(n)) == digits_value(decimal(n / 10)) * 10 + digit_value(digit_char(n % 10)));
        assert forall|i: int| 0 <= i < decimal(n).len() implies is_digit(#[trigger] decimal(n)[i]) by {
            if i < decimal(n / 10).len() {
                assert(decimal(n)[i] == decimal(n / 10)[i]);
            }
        }
    }
}

proof fn lemma_size_search(segs: Seq<Seq<char>>, k: int)
    requires
        0 <= k <= segs.len(),
        forall|j: int| 0 <= j < k ==> !contains(#[trigger] segs[j], size_word()),
    ensures
        segment_after_size(segs, 0) == segment_after_size(segs, k),
    decreases k,
{
    if k > 0 {
        lemma_size_search(segs, k - 1);
    }
}

proof fn lemma_tail_free(n: nat, eq_too: bool)
    ensures
        forall|j: int| 0 <= j < decimal(n).len() ==> !is_sep(#[trigger] decimal(n)[j], eq_too),
        decimal(n).len() > 0,
        decimal(n)[0] != '+',
        positive_number(decimal(n)) == (if 1 <= n <= usize::MAX { Some(n as usize) } else { None }),
{
    lemma_decimal(n);
    let dec = decimal(n);
    assert forall|j: int| 0 <= j < dec.len() implies !is_sep(#[trigger] dec[j], eq_too) by {
        assert(is_digit(dec[j]));
    }
    assert(is_digit(dec[0]));
    assert(unsigned_part(dec) == dec);
}

proof fn lemma_serialized_segments(nm: Seq<char>, n: nat)
    ensures
        split(serialized(nm, n), false) == split(nm, false) + seq![size_assign_word() + decimal(n)],
        contains(size_assign_word() + decimal(n), size_assign_word()),
{
    let dec = decimal(n);
    let tail = size_assign_word() + dec;
    lemma_tail_free(n, false);
    assert(serialized(nm, n) =~= nm + seq![':'] + tail);
    lemma_split_concat(nm, ':', tail, false);
    assert forall|j: int| 0 <= j < tail.len() implies !is_sep(#[trigger] tail[j], false) by {
        if j >= 5 {
            assert(tail[j] == dec[j - 5]);
        }
    }
    lemma_split_plain(tail, false);
    assert(tail.subrange(0int, 0int + size_assign_word().len()) =~= size_assign_word());
}

proof fn lemma_kept_drops(segs: Seq<Seq<char>>, x: Seq<char>)
    requires
        contains(x, size_assign_word()),
    ensures
        kept(segs + seq![x]) == kept(segs),
{
    assert((segs + seq![x]).drop_last() =~= segs);
    assert((segs + seq![x]).last() == x);
}

proof fn lemma_name_fixed(k: Seq<Seq<char>>)
    requires
        forall|i: int, j: int| 0 <= i < k.len() && 0 <= j < k[i].len() ==> #[trigger] k[i][j] != ':',
        forall|i: int| 0 <= i < k.len() ==> !contains(#[trigger] k[i], size_assign_word()),
    ensures
        join(kept(split(join(k), false))) == join(k),
{
    if k.len() == 0 {
        let e = Seq::<char>::empty();
        assert(join(k) =~= e);
        assert(split(e, false) =~= seq![e]);
        assert(seq![e].drop_last() =~= Seq::<Seq<char>>::empty());
        assert(!contains(e, size_assign_word()));
        assert(kept(Seq::<Seq<char>>::empty()) =~= Seq::<Seq<char>>::empty());
        assert(seq![e].last() == e);
        assert(kept(seq![e]) == kept(seq![e].drop_last()).push(e));
        assert(kept(seq![e]) =~= seq![e]);
    } else {
        lemma_join_split(k);
        lemma_kept(k);
    }
}

proof fn lemma_reparse_name(d: Seq<char>)
    ensures
        base_name(serialized(base_name(d), size_from_text(d) as nat)) == base_name(d),
{
    let segs = split(d, false);
    let k = kept(segs);
    let n = size_from_text(d) as nat;
    lemma_kept(segs);
    lemma_split_free(d, false);
    assert forall|i: int, j: int| 0 <= i < k.len() && 0 <= j < k[i].len() implies #[trigger] k[i][j] != ':' by {
        let jj = choose|jj: int| 0 <= jj < segs.len() && segs[jj] == k[i];
        assert(!is_sep(segs[jj][j], false));
    }
    lemma_name_fixed(k);
    lemma_serialized_segments(join(k), n);
    lemma_kept_drops(split(join(k), false), size_assign_word() + decimal(n));
}

proof fn lemma_size_serialized(nm: Seq<char>, n: nat)
    requires
        !contains(nm, size_word()),
        1 <= n <= usize::MAX,
    ensures
        size_from_text(serialized(nm, n)) == n,
{
    let dec = decimal(n);
    let word = size_word();
    let tail = word + seq!['='] + dec;
    let st = split(nm, true);
    lemma_tail_free(n, true);
    assert(serialized(nm, n) =~= nm + seq![':'] + tail);
    lemma_split_concat(nm, ':', tail, true);
    lemma_split_concat(word, '=', dec, true);
    assert forall|j: int| 0 <= j < word.len() implies !is_sep(#[trigger] word[j], true) by {}
    lemma_split_plain(word, true);
    lemma_split_plain(dec, true);
    let all = split(serialized(nm, n), true);
    assert(all =~= st + seq![word, dec]);
    assert forall|j: int| 0 <= j < st.len() implies !contains(#[trigger] all[j], size_word()) by {
        assert(all[j] == st[j]);
        if contains(st[j], size_word()) {
            lemma_split_contains(nm, true, size_word(), j);
        }
    }
    lemma_size_search(all, st.len() as int);
    assert(all[st.len() as int] == word);
    assert(word.subrange(0int, 0int + word.len()) =~= word);
    assert(contains(all[st.len() as int], size_word()));
    assert(all[st.len() as int + 1] == dec);
}

proof fn lemma_size_range(d: Seq<char>)
    ensures
        1 <= size_from_text(d) <= usize::MAX,
{
}

/// Reading a descriptor, writing it out canonically and reading that again
/// gives the same base name; and, where the base name does not itself
/// mention `size`, the same size.
pub proof fn lemma_reparse(d: Seq<char>)
    ensures
        base_name(serialized(base_name(d), size_from_text(d) as nat)) == base_name(d),
        !contains(base_name(d), size_word()) ==> size_from_text(
            serialized(base_name(d), size_from_text(d) as nat),
        ) == size_from_text(d),
{
    lemma_reparse_name(d);
    if !contains(base_name(d), size_word()) {
        lemma_size_range(d);
        lemma_size_serialized(base_name(d), size_from_text(d) as nat);
    }
}

} // verus!
