use vstd::prelude::*;

verus! {

/// Whether a character counts as whitespace for trimming: the ASCII
/// whitespace set.
pub open spec fn is_ws(c: char) -> bool {
    c == ' ' || c == '\t' || c == '\n' || c == '\r' || c == '\u{b}' || c == '\u{c}'
}

/// The sequence with leading whitespace removed.
pub open spec fn trim_start(s: Seq<char>) -> Seq<char>
    decreases s.len(),
{
    if s.len() == 0 {
        s
    } else if is_ws(s[0]) {
        trim_start(s.drop_first())
    } else {
        s
    }
}

/// The sequence with trailing whitespace removed.
pub open spec fn trim_end(s: Seq<char>) -> Seq<char>
    decreases s.len(),
{
    if s.len() == 0 {
        s
    } else if is_ws(s[s.len() - 1]) {
        trim_end(s.drop_last())
    } else {
        s
    }
}

/// The sequence with leading and trailing whitespace removed.
pub open spec fn trim(s: Seq<char>) -> Seq<char> {
    trim_end(trim_start(s))
}

/// The number of leading whitespace characters.
pub open spec fn ws_start(s: Seq<char>) -> int
    decreases s.len(),
{
    if s.len() == 0 {
        0
    } else if is_ws(s[0]) {
        1 + ws_start(s.drop_first())
    } else {
        0
    }
}

/// The index just past the last character that is not whitespace
/// (0 when the whole sequence is whitespace).
pub open spec fn ws_end(s: Seq<char>) -> int
    decreases s.len(),
{
    if s.len() == 0 {
        0
    } else if is_ws(s[s.len() - 1]) {
        ws_end(s.drop_last())
    } else {
        s.len() as int
    }
}

/// The index of the first newline, or the length when there is none.
pub open spec fn first_nl(s: Seq<char>) -> int
    decreases s.len(),
{
    if s.len() == 0 {
        0
    } else if s[0] == '\n' {
        0
    } else {
        1 + first_nl(s.drop_first())
    }
}

/// The sequence with one trailing carriage return removed, if present.
pub open spec fn strip_cr(s: Seq<char>) -> Seq<char> {
    if s.len() > 0 && s[s.len() - 1] == '\r' {
        s.drop_last()
    } else {
        s
    }
}

/// Everything before the first newline, with a trailing carriage return
/// removed.
pub open spec fn line_cut(s: Seq<char>) -> Seq<char> {
    strip_cr(s.take(first_nl(s)))
}

pub proof fn lemma_ws_start(s: Seq<char>)
    ensures
        0 <= ws_start(s) <= s.len(),
        forall|k: int| 0 <= k < ws_start(s) ==> is_ws(s[k]),
        ws_start(s) < s.len() ==> !is_ws(s[ws_start(s)]),
        trim_start(s) == s.skip(ws_start(s)),
    decreases s.len(),
{
    if s.len() == 0 {
        assert(trim_start(s) == s.skip(0));
    } else if is_ws(s[0]) {
        lemma_ws_start(s.drop_first());
        assert(s.drop_first() == s.skip(1));
        assert(s.skip(1).skip(ws_start(s.skip(1))) == s.skip(1 + ws_start(s.skip(1))));
        assert forall|k: int| 1 <= k < ws_start(s) implies is_ws(s[k]) by {
            assert(s[k] == s.drop_first()[k - 1]);
            assert(is_ws(s.drop_first()[k - 1]));
        }
    } else {
        assert(trim_start(s) == s.skip(0));
    }
}

pub proof fn lemma_ws_end(s: Seq<char>)
    ensures
        0 <= ws_end(s) <= s.len(),
        forall|k: int| ws_end(s) <= k < s.len() ==> is_ws(s[k]),
        ws_end(s) > 0 ==> !is_ws(s[ws_end(s) - 1]),
        trim_end(s) == s.take(ws_end(s)),
    decreases s.len(),
{
    if s.len() == 0 {
        assert(trim_end(s) == s.take(0));
    } else if is_ws(s[s.len() - 1]) {
        lemma_ws_end(s.drop_last());
        assert(s.drop_last() == s.take(s.len() - 1));
        assert(s.take(s.len() - 1).take(ws_end(s.drop_last())) == s.take(ws_end(s.drop_last())));
        assert forall|k: int| ws_end(s) <= k < s.len() implies is_ws(s[k]) by {
            if k < s.len() - 1 {
                assert(s[k] == s.drop_last()[k]);
                assert(is_ws(s.drop_last()[k]));
            }
        }
    } else {
        assert(trim_end(s) == s.take(s.len() as int));
        assert(s.take(s.len() as int) == s);
    }
}

pub proof fn lemma_first_nl(s: Seq<char>)
    ensures
        0 <= first_nl(s) <= s.len(),
        forall|k: int| 0 <= k < first_nl(s) ==> s[k] != '\n',
        first_nl(s) < s.len() ==> s[first_nl(s)] == '\n',
    decreases s.len(),
{
    if s.len() == 0 {
    } else if s[0] == '\n' {
    } else {
        lemma_first_nl(s.drop_first());
        assert(forall|k: int| 1 <= k < first_nl(s) ==> #[trigger] s[k] == s.drop_first()[k - 1]);
    }
}

/// `ws_start` is the only index with its defining properties.
pub proof fn lemma_ws_start_unique(s: Seq<char>, a: int)
    requires
        0 <= a <= s.len(),
        forall|k: int| 0 <= k < a ==> is_ws(s[k]),
        a < s.len() ==> !is_ws(s[a]),
    ensures
        ws_start(s) == a,
{
    lemma_ws_start(s);
}

/// `ws_end` is the only index with its defining properties.
pub proof fn lemma_ws_end_unique(s: Seq<char>, b: int)
    requires
        0 <= b <= s.len(),
        forall|k: int| b <= k < s.len() ==> is_ws(s[k]),
        b > 0 ==> !is_ws(s[b - 1]),
    ensures
        ws_end(s) == b,
{
    lemma_ws_end(s);
}

/// `first_nl` is the only index with its defining properties.
pub proof fn lemma_first_nl_unique(s: Seq<char>, k: int)
    requires
        0 <= k <= s.len(),
        forall|j: int| 0 <= j < k ==> s[j] != '\n',
        k < s.len() ==> s[k] == '\n',
    ensures
        first_nl(s) == k,
{
    lemma_first_nl(s);
}

/// Appending a newline-free suffix to text whose trimmed form spans more
/// than one line changes nothing: the first-line cut drops the suffix along
/// with everything after the first newline.
pub proof fn lemma_suffix_dropped(text: Seq<char>, sfx: Seq<char>)
    requires
        trim(text).contains('\n'),
        !sfx.contains('\n'),
    ensures
        trim(line_cut(trim(text + sfx))) == trim(line_cut(trim(text))),
{
    let s = text + sfx;
    lemma_ws_start(text);
    let a = ws_start(text);
    let t1 = trim_start(text);
    lemma_ws_end(t1);
    let b1 = ws_end(t1);
    let tr1 = trim_end(t1);
    assert(tr1 == trim(text));
    let p = choose|p: int| 0 <= p < tr1.len() && tr1[p] == '\n';
    assert(tr1.len() == b1);
    assert(b1 >= 1);
    assert(t1.len() == text.len() - a);
    assert(a < text.len());
    assert forall|k: int| 0 <= k < a implies is_ws(s[k]) by {
        assert(s[k] == text[k]);
    }
    assert(s[a] == text[a]);
    assert(!is_ws(s[a])) by {
        assert(t1[0] == text[a]);
        assert(!is_ws(t1[0])) by {
            if is_ws(t1[0]) {
                assert(ws_start(text) == a);
            }
        }
    }
    lemma_ws_start_unique(s, a);
    lemma_ws_start(s);
    let t2 = trim_start(s);
    assert(t2 == s.skip(a));
    lemma_ws_end(t2);
    let b2 = ws_end(t2);
    let tr2 = trim_end(t2);
    assert(t1 == text.skip(a));
    assert(t2[b1 - 1] == s[a + b1 - 1]);
    assert(a + b1 - 1 < text.len());
    assert(s[a + b1 - 1] == text[a + b1 - 1]);
    assert(t1[b1 - 1] == text[a + b1 - 1]);
    assert(!is_ws(t1[b1 - 1]));
    assert(b2 >= b1) by {
        if b2 < b1 {
            assert(is_ws(t2[b1 - 1]));
        }
    }
    lemma_first_nl(tr1);
    let k1 = first_nl(tr1);
    assert(k1 < b1) by {
        if k1 == b1 {
            assert(tr1[p] != '\n');
        }
    }
    assert(tr1[k1] == '\n');
    assert(tr2.len() == b2);
    assert(tr1 == t1.take(b1));
    assert(tr2 == t2.take(b2));
    assert forall|j: int| 0 <= j <= k1 implies tr2[j] == tr1[j] by {
        assert(tr2[j] == s[a + j]);
        assert(a + j < text.len());
        assert(s[a + j] == text[a + j]);
        assert(tr1[j] == t1[j]);
        assert(t1[j] == text[a + j]);
    }
    lemma_first_nl_unique(tr2, k1);
    assert(tr1.take(k1) =~= tr2.take(k1));
    assert(line_cut(tr2) == strip_cr(tr2.take(k1)));
    assert(line_cut(tr1) == strip_cr(tr1.take(k1)));
}

/// A text without newlines keeps its whole suffix: with a newline-free
/// suffix appended, the first-line cut changes nothing and the tidying is
/// one trim.
pub proof fn lemma_suffix_kept(text: Seq<char>, sfx: Seq<char>)
    requires
        !text.contains('\n'),
        !sfx.contains('\n'),
    ensures
        trim(line_cut(trim(text + sfx))) == trim(text + sfx),
{
    let s0 = text + sfx;
    assert forall|j: int| 0 <= j < s0.len() implies s0[j] != '\n' by {
        if j < text.len() {
            assert(s0[j] == text[j]);
            if s0[j] == '\n' {
                assert(text.contains('\n'));
            }
        } else {
            assert(s0[j] == sfx[j - text.len()]);
            if s0[j] == '\n' {
                assert(sfx.contains('\n'));
            }
        }
    }
    lemma_ws_start(s0);
    let a = ws_start(s0);
    let t1 = trim_start(s0);
    lemma_ws_end(t1);
    let b = ws_end(t1);
    let s = trim_end(t1);
    assert(s == trim(s0));
    assert(s == t1.take(b));
    assert forall|j: int| 0 <= j < s.len() implies s[j] != '\n' by {
        assert(s[j] == s0[a + j]);
    }
    lemma_first_nl_unique(s, s.len() as int);
    assert(s.take(s.len() as int) == s);
    if s.len() > 0 {
        assert(!is_ws(s[s.len() - 1])) by {
            assert(s[s.len() - 1] == t1[b - 1]);
        }
        assert(s[s.len() - 1] != '\r');
        assert(line_cut(s) == s);
        assert(!is_ws(s[0])) by {
            assert(t1.len() > 0);
            assert(a < s0.len());
            assert(t1[0] == s0[a]);
            assert(s[0] == t1[0]);
        }
        lemma_ws_start_unique(s, 0);
        lemma_ws_start(s);
        assert(s.skip(0) =~= s);
        lemma_ws_end_unique(s, s.len() as int);
        lemma_ws_end(s);
        assert(trim(s) == s);
    } else {
        assert(line_cut(s) =~= s);
        assert(trim(s) =~= s);
    }
}

/// Whether a character counts as trim whitespace, decided in executable code.
pub fn is_ws_exec(c: char) -> (r: bool)
    ensures
        r == is_ws(c),
{
    c == ' ' || c == '\t' || c == '\n' || c == '\r' || c == '\u{b}' || c == '\u{c}'
}

/// The input with leading and trailing whitespace removed.
pub fn trim_str(s: &str) -> (r: String)
    ensures
        r@ == trim(s@),
{
    let n = s.unicode_len();
    let mut a: usize = 0;
    while a < n && is_ws_exec(s.get_char(a))
        invariant
            0 <= a <= n,
            n == s@.len(),
            forall|k: int| 0 <= k < a ==> is_ws(s@[k]),
        decreases n - a,
    {
        a = a + 1;
    }
    let mut b: usize = n;
    while b > a && is_ws_exec(s.get_char(b - 1))
        invariant
            a <= b <= n,
            n == s@.len(),
            forall|k: int| 0 <= k < a ==> is_ws(s@[k]),
            forall|k: int| b <= k < n ==> is_ws(s@[k]),
        decreases b,
    {
        b = b - 1;
    }
    let cut = s.substring_char(a, b);
    proof {
        lemma_ws_start_unique(s@, a as int);
        lemma_ws_start(s@);
        let tail = s@.skip(a as int);
        if b == a {
            lemma_ws_end_unique(tail, 0);
        } else {
            assert(forall|k: int|
                b - a <= k < tail.len() ==> #[trigger] tail[k] == s@[k + a]);
            assert(!is_ws(tail[b - a - 1]));
            lemma_ws_end_unique(tail, b - a);
        }
        lemma_ws_end(tail);
        assert(tail.take(b - a) =~= s@.subrange(a as int, b as int));
    }
    cut.to_owned()
}

/// Everything before the first newline, with a trailing carriage return
/// removed.
pub fn cut_line(s: &str) -> (r: String)
    ensures
        r@ == line_cut(s@),
{
    let n = s.unicode_len();
    let mut k: usize = 0;
    while k < n && s.get_char(k) != '\n'
        invariant
            0 <= k <= n,
            n == s@.len(),
            forall|j: int| 0 <= j < k ==> s@[j] != '\n',
        decreases n - k,
    {
        k = k + 1;
    }
    let e: usize = if k > 0 && s.get_char(k - 1) == '\r' {
        k - 1
    } else {
        k
    };
    let cut = s.substring_char(0, e);
    proof {
        lemma_first_nl_unique(s@, k as int);
        let pre = s@.take(k as int);
        if k > 0 && s@[k - 1] == '\r' {
            assert(pre[pre.len() - 1] == '\r');
            assert(pre.drop_last() =~= s@.subrange(0, e as int));
        } else {
            if pre.len() > 0 {
                assert(pre[pre.len() - 1] == s@[k - 1]);
            }
            assert(pre =~= s@.subrange(0, e as int));
        }
    }
    cut.to_owned()
}

/// The first line of the trimmed input, itself trimmed: the final tidying
/// step applied to every formatted commit line.
pub fn tidy_line(s: &str) -> (r: String)
    ensures
        r@ == trim(line_cut(trim(s@))),
{
    let t1 = trim_str(s);
    let t2 = cut_line(t1.as_str());
    trim_str(t2.as_str())
}

/// Whether the two strings hold the same characters.
pub fn str_eq(a: &str, b: &str) -> (r: bool)
    ensures
        r == (a@ == b@),
{
    let na = a.unicode_len();
    let nb = b.unicode_len();
    if na != nb {
        proof {
            assert(a@ != b@) by {
                assert(a@.len() != b@.len());
            }
        }
        return false;
    }
    let mut i: usize = 0;
    while i < na
        invariant
            0 <= i <= na,
            na == a@.len(),
            na == b@.len(),
            forall|k: int| 0 <= k < i ==> a@[k] == b@[k],
        decreases na - i,
    {
        if a.get_char(i) != b.get_char(i) {
            return false;
        }
        i = i + 1;
    }
    proof {
        assert(a@ =~= b@);
    }
    true
}

} // verus!
