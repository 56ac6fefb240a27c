use vstd::prelude::*;

use crate::shortcodes::glyph_of_code;
use crate::shortcodes::shortcode_glyph;
use crate::table::commit_emoji;
use crate::table::type_glyph;
use crate::text::str_eq;

verus! {

/// The fixed glyph added for a breaking change.
pub open spec fn boom() -> Seq<char> {
    "💥"@
}

/// The combined type-scope key tried against the shortcode registry.
pub open spec fn combined_key(ty: Seq<char>, sc: Seq<char>) -> Seq<char> {
    ty + seq!['-'] + sc
}

/// The glyphs contributed by the breaking flag, the type and the scope, in
/// that order. A combined type-scope registry hit shadows the scope's own
/// entry in the static table.
pub open spec fn base_glyphs(ty: Seq<char>, scope: Option<Seq<char>>, breaking: bool) -> Seq<
    Seq<char>,
> {
    (if breaking {
        seq![boom()]
    } else {
        Seq::empty()
    }) + (match type_glyph(ty) {
        Option::Some(g) => seq![g],
        Option::None => Seq::empty(),
    }) + (match scope {
        Option::Some(sc) => match glyph_of_code(combined_key(ty, sc)) {
            Option::Some(g) => seq![g],
            Option::None => match type_glyph(sc) {
                Option::Some(g) => seq![g],
                Option::None => Seq::empty(),
            },
        },
        Option::None => Seq::empty(),
    })
}

/// The index of the first colon, or the length when there is none.
pub open spec fn first_colon(s: Seq<char>) -> int
    decreases s.len(),
{
    if s.len() == 0 {
        0
    } else if s[0] == ':' {
        0
    } else {
        1 + first_colon(s.drop_first())
    }
}

pub proof fn lemma_first_colon(s: Seq<char>)
    ensures
        0 <= first_colon(s) <= s.len(),
        forall|j: int| 0 <= j < first_colon(s) ==> s[j] != ':',
        first_colon(s) < s.len() ==> s[first_colon(s)] == ':',
    decreases s.len(),
{
    if s.len() == 0 {
    } else if s[0] == ':' {
    } else {
        lemma_first_colon(s.drop_first());
        assert(forall|j: int| 1 <= j < first_colon(s) ==> #[trigger] s[j] == s.drop_first()[j - 1]);
    }
}

/// `first_colon` is the only index with its defining properties.
pub proof fn lemma_first_colon_unique(s: Seq<char>, k: int)
    requires
        0 <= k <= s.len(),
        forall|j: int| 0 <= j < k ==> s[j] != ':',
        k < s.len() ==> s[k] == ':',
    ensures
        first_colon(s) == k,
{
    lemma_first_colon(s);
}

/// The glyph a single colon-separated segment contributes: nothing for an
/// empty segment or an unknown code.
pub open spec fn segment_glyphs(seg: Seq<char>) -> Seq<Seq<char>> {
    if seg.len() == 0 {
        Seq::empty()
    } else {
        match glyph_of_code(seg) {
            Option::Some(g) => seq![g],
            Option::None => Seq::empty(),
        }
    }
}

/// The glyphs of the shortcodes embedded in a description: split on `:`,
/// empty segments and unknown codes dropped.
pub open spec fn split_glyphs(s: Seq<char>) -> Seq<Seq<char>>
    decreases s.len(),
{
    let i = first_colon(s);
    if 0 <= i < s.len() {
        segment_glyphs(s.take(i)) + split_glyphs(s.skip(i + 1))
    } else {
        segment_glyphs(s)
    }
}

/// The embedded codes count only when the description holds a colon at all.
pub open spec fn free_glyphs(desc: Seq<char>) -> Seq<Seq<char>> {
    if desc.contains(':') {
        split_glyphs(desc)
    } else {
        Seq::empty()
    }
}

/// Every glyph the fields produce, before deduplication, in order.
pub open spec fn raw_glyphs(
    ty: Seq<char>,
    scope: Option<Seq<char>>,
    breaking: bool,
    desc: Seq<char>,
) -> Seq<Seq<char>> {
    base_glyphs(ty, scope, breaking) + free_glyphs(desc)
}

/// The list with later repeats of a glyph removed.
pub open spec fn dedup(s: Seq<Seq<char>>) -> Seq<Seq<char>>
    decreases s.len(),
{
    if s.len() == 0 {
        s
    } else if dedup(s.drop_last()).contains(s.last()) {
        dedup(s.drop_last())
    } else {
        dedup(s.drop_last()).push(s.last())
    }
}

/// The glyphs joined with single spaces.
pub open spec fn join_glyphs(gs: Seq<Seq<char>>) -> Seq<char>
    decreases gs.len(),
{
    if gs.len() == 0 {
        Seq::empty()
    } else if gs.len() == 1 {
        gs[0]
    } else {
        join_glyphs(gs.drop_last()) + seq![' '] + gs.last()
    }
}

/// What the resolver returns for a set of fields.
pub open spec fn resolved(
    ty: Seq<char>,
    scope: Option<Seq<char>>,
    breaking: bool,
    desc: Seq<char>,
) -> Seq<char> {
    join_glyphs(dedup(raw_glyphs(ty, scope, breaking, desc)))
}

/// Deduplication keeps exactly the glyphs that were there.
pub proof fn lemma_dedup_contains(s: Seq<Seq<char>>, x: Seq<char>)
    ensures
        dedup(s).contains(x) <==> s.contains(x),
    decreases s.len(),
{
    if s.len() == 0 {
    } else {
        let d = s.drop_last();
        lemma_dedup_contains(d, x);
        assert(d.contains(x) ==> s.contains(x)) by {
            if d.contains(x) {
                let i = choose|i: int| 0 <= i < d.len() && d[i] == x;
                assert(s[i] == x);
            }
        }
        assert(s.last() == x ==> s.contains(x)) by {
            if s.last() == x {
                assert(s[s.len() - 1] == x);
            }
        }
        assert(s.contains(x) ==> d.contains(x) || s.last() == x) by {
            if s.contains(x) {
                let i = choose|i: int| 0 <= i < s.len() && s[i] == x;
                if i < s.len() - 1 {
                    assert(d[i] == x);
                }
            }
        }
        if dedup(d).contains(s.last()) {
            assert(dedup(s) == dedup(d));
        } else {
            let dd = dedup(d);
            assert(dedup(s) == dd.push(s.last()));
            assert(dd.contains(x) ==> dedup(s).contains(x)) by {
                if dd.contains(x) {
                    let i = choose|i: int| 0 <= i < dd.len() && dd[i] == x;
                    assert(dedup(s)[i] == x);
                }
            }
            assert(x == s.last() ==> dedup(s).contains(x)) by {
                if x == s.last() {
                    assert(dedup(s)[dd.len() as int] == x);
                }
            }
            assert(dedup(s).contains(x) ==> dd.contains(x) || x == s.last()) by {
                if dedup(s).contains(x) {
                    let i = choose|i: int| 0 <= i < dedup(s).len() && dedup(s)[i] == x;
                    if i < dd.len() {
                        assert(dd[i] == x);
                    }
                }
            }
        }
    }
}

/// One deduplication step.
pub proof fn lemma_dedup_push(s: Seq<Seq<char>>, x: Seq<char>)
    ensures
        dedup(s.push(x)) == if dedup(s).contains(x) {
            dedup(s)
        } else {
            dedup(s).push(x)
        },
{
    assert(s.push(x).drop_last() =~= s);
    assert(s.push(x).last() == x);
}

/// A glyph in the list stands somewhere in the space-joined text.
pub proof fn lemma_join_contains(gs: Seq<Seq<char>>, x: Seq<char>)
    requires
        gs.contains(x),
    ensures
        exists|i: int|
            0 <= i && i + x.len() <= join_glyphs(gs).len() && #[trigger] join_glyphs(gs).subrange(
                i,
                i + x.len(),
            ) == x,
    decreases gs.len(),
{
    let j = choose|j: int| 0 <= j < gs.len() && gs[j] == x;
    if gs.len() == 1 {
        assert(join_glyphs(gs) == x);
        let i0: int = 0;
        assert(join_glyphs(gs).subrange(i0, i0 + x.len()) =~= x);
    } else {
        let front = join_glyphs(gs.drop_last());
        if j < gs.len() - 1 {
            assert(gs.drop_last()[j] == x);
            assert(gs.drop_last().contains(x));
            lemma_join_contains(gs.drop_last(), x);
            let i = choose|i: int|
                0 <= i && i + x.len() <= front.len() && #[trigger] front.subrange(i, i + x.len())
                    == x;
            assert(join_glyphs(gs).subrange(i, i + x.len()) =~= front.subrange(i, i + x.len()));
        } else {
            let i0 = join_glyphs(gs).len() - x.len();
            assert(join_glyphs(gs).subrange(i0, i0 + x.len()) =~= x);
        }
    }
}

/// For a token in the static type table alone — no scope, no breaking
/// marker, no embedded codes in the description — the resolver returns
/// exactly that token's glyph and nothing else.
pub proof fn lemma_single_type_glyph(ty: Seq<char>, desc: Seq<char>)
    requires
        type_glyph(ty) is Some,
        !desc.contains(':'),
    ensures
        resolved(ty, Option::None, false, desc) == type_glyph(ty)->0,
{
    let g = type_glyph(ty)->0;
    let raw = raw_glyphs(ty, Option::None, false, desc);
    assert(raw =~= seq![g]);
    assert(seq![g].drop_last() =~= Seq::<Seq<char>>::empty());
    assert(dedup(Seq::<Seq<char>>::empty()) == Seq::<Seq<char>>::empty());
    assert(!Seq::<Seq<char>>::empty().contains(g));
    assert(dedup(seq![g]) == Seq::<Seq<char>>::empty().push(g));
    assert(Seq::<Seq<char>>::empty().push(g) =~= seq![g]);
    assert(join_glyphs(seq![g]) == g);
}

/// A breaking change always contributes the breaking glyph, whatever the
/// type, the scope and the description: the glyph leads the list and stands
/// somewhere in the joined text.
pub proof fn lemma_breaking_glyph(ty: Seq<char>, scope: Option<Seq<char>>, desc: Seq<char>)
    ensures
        raw_glyphs(ty, scope, true, desc)[0] == boom(),
        dedup(raw_glyphs(ty, scope, true, desc)).contains(boom()),
        exists|i: int|
            0 <= i && i + boom().len() <= resolved(ty, scope, true, desc).len()
                && #[trigger] resolved(ty, scope, true, desc).subrange(i, i + boom().len() as int)
                == boom(),
{
    let raw = raw_glyphs(ty, scope, true, desc);
    assert(raw[0] == boom());
    assert(raw.contains(boom()));
    lemma_dedup_contains(raw, boom());
    lemma_join_contains(dedup(raw), boom());
    let joined = join_glyphs(dedup(raw));
    let i = choose|i: int|
        0 <= i && i + boom().len() <= joined.len() && #[trigger] joined.subrange(
            i,
            i + boom().len() as int,
        ) == boom();
    assert(resolved(ty, scope, true, desc).subrange(i, i + boom().len() as int) == boom());
}

/// When the combined type-scope key resolves in the shortcode registry, the
/// scope's own entry in the static table contributes nothing: a glyph that
/// no other source adds does not appear, even though the scope alone is a
/// known key.
pub proof fn lemma_combined_over_generic(
    ty: Seq<char>,
    sc: Seq<char>,
    breaking: bool,
    desc: Seq<char>,
    g: Seq<char>,
)
    requires
        glyph_of_code(combined_key(ty, sc)) is Some,
        type_glyph(sc) == Option::Some(g),
        g != boom(),
        type_glyph(ty) != Option::Some(g),
        glyph_of_code(combined_key(ty, sc)) != Option::Some(g),
        !free_glyphs(desc).contains(g),
    ensures
        !dedup(raw_glyphs(ty, Option::Some(sc), breaking, desc)).contains(g),
{
    let raw = raw_glyphs(ty, Option::Some(sc), breaking, desc);
    let base = base_glyphs(ty, Option::Some(sc), breaking);
    lemma_dedup_contains(raw, g);
    assert forall|i: int| 0 <= i < raw.len() implies raw[i] != g by {
        if i < base.len() {
            assert(raw[i] == base[i]);
            let b1: Seq<Seq<char>> = if breaking {
                seq![boom()]
            } else {
                Seq::empty()
            };
            let b2: Seq<Seq<char>> = match type_glyph(ty) {
                Option::Some(tg) => seq![tg],
                Option::None => Seq::empty(),
            };
            if i < b1.len() {
                assert(base[i] == boom());
            } else if i < b1.len() + b2.len() {
                assert(base[i] == type_glyph(ty)->0);
            } else {
                assert(base[i] == glyph_of_code(combined_key(ty, sc))->0);
            }
        } else {
            assert(raw[i] == free_glyphs(desc)[i - base.len()]);
            assert(free_glyphs(desc).contains(free_glyphs(desc)[i - base.len()]));
        }
    }
    if raw.contains(g) {
        let i = choose|i: int| 0 <= i < raw.len() && raw[i] == g;
        assert(false);
    }
}

/// The views of the strings in a list.
pub open spec fn views(v: Seq<String>) -> Seq<Seq<char>> {
    v.map_values(|s: String| s@)
}

/// Whether the glyph already stands in the list.
fn vec_has(v: &Vec<String>, g: &str) -> (r: bool)
    ensures
        r == views(v@).contains(g@),
{
    let mut i: usize = 0;
    while i < v.len()
        invariant
            0 <= i <= v@.len(),
            forall|k: int| 0 <= k < i ==> v@[k]@ != g@,
        decreases v@.len() - i,
    {
        if str_eq(v[i].as_str(), g) {
            proof {
                assert(views(v@)[i as int] == g@);
            }
            return true;
        }
        i = i + 1;
    }
    proof {
        if views(v@).contains(g@) {
            let k = choose|k: int| 0 <= k < views(v@).len() && views(v@)[k] == g@;
            assert(v@[k]@ == g@);
            assert(false);
        }
    }
    false
}

/// Add a glyph to the list unless it is already there.
fn push_unique(v: &mut Vec<String>, g: String)
    ensures
        views(final(v)@) == if views(old(v)@).contains(g@) {
            views(old(v)@)
        } else {
            views(old(v)@).push(g@)
        },
{
    if !vec_has(v, g.as_str()) {
        let ghost before = v@;
        v.push(g);
        proof {
            assert(views(v@) =~= views(before).push(g@));
        }
    }
}

/// Whether the string holds a colon.
fn has_colon(s: &str) -> (r: bool)
    ensures
        r == s@.contains(':'),
{
    let n = s.unicode_len();
    let mut i: usize = 0;
    while i < n
        invariant
            0 <= i <= n,
            n == s@.len(),
            forall|k: int| 0 <= k < i ==> s@[k] != ':',
        decreases n - i,
    {
        if s.get_char(i) == ':' {
            proof {
                assert(s@[i as int] == ':');
            }
            return true;
        }
        i = i + 1;
    }
    proof {
        if s@.contains(':') {
            let k = choose|k: int| 0 <= k < s@.len() && s@[k] == ':';
            assert(false);
        }
    }
    false
}

/// Derive the deduplicated, space-joined emoji annotation for a set of
/// conventional-commit fields: the breaking glyph, the type's table entry,
/// the combined type-scope registry entry or else the scope's table entry,
/// and every registry code embedded in a colon-carrying description.
#[verifier::rlimit(60)]
pub fn format_emoji(type_str: &str, scope: Option<&str>, breaking: bool, description: &str) -> (r:
    String)
    ensures
        r@ == resolved(
            type_str@,
            match scope {
                Some(s) => Option::Some(s@),
                None => Option::None,
            },
            breaking,
            description@,
        ),
{
    let ghost sscope: Option<Seq<char>> = match scope {
        Some(s) => Option::Some(s@),
        None => Option::None,
    };
    let mut v: Vec<String> = Vec::new();
    let ghost mut raw: Seq<Seq<char>> = Seq::empty();
    proof {
        assert(views(v@) =~= dedup(raw));
    }

    if breaking {
        let b: String = "💥".to_owned();
        proof {
            lemma_dedup_push(raw, b@);
            raw = raw.push(b@);
        }
        push_unique(&mut v, b);
    }

    match commit_emoji(type_str) {
        Some(tg) => {
            let tgo = tg.to_owned();
            proof {
                lemma_dedup_push(raw, tgo@);
                raw = raw.push(tgo@);
            }
            push_unique(&mut v, tgo);
        },
        None => {},
    }

    match scope {
        Some(scope_str) => {
            let mut key = String::new();
            key.append(type_str);
            key.append("-");
            key.append(scope_str);
            proof {
                reveal_strlit("-");
                assert("-"@ =~= seq!['-']);
                assert(key@ =~= combined_key(type_str@, scope_str@));
            }
            match shortcode_glyph(key.as_str()) {
                Some(cg) => {
                    proof {
                        lemma_dedup_push(raw, cg@);
                        raw = raw.push(cg@);
                    }
                    push_unique(&mut v, cg);
                },
                None => {
                    match commit_emoji(scope_str) {
                        Some(sg) => {
                            let sgo = sg.to_owned();
                            proof {
                                lemma_dedup_push(raw, sgo@);
                                raw = raw.push(sgo@);
                            }
                            push_unique(&mut v, sgo);
                        },
                        None => {},
                    }
                },
            }
        },
        None => {},
    }

    proof {
        assert(raw =~= base_glyphs(type_str@, sscope, breaking));
    }

    if has_colon(description) {
        let ghost base = raw;
        let ghost mut processed: Seq<Seq<char>> = Seq::empty();
        let n = description.unicode_len();
        let mut start: usize = 0;
        proof {
            assert(description@.skip(0) =~= description@);
            assert(Seq::<Seq<char>>::empty() + split_glyphs(description@) =~= split_glyphs(
                description@,
            ));
        }
        loop
            invariant_except_break
                0 <= start <= n,
                n == description@.len(),
                views(v@) == dedup(raw),
                raw == base + processed,
                split_glyphs(description@) == processed + split_glyphs(
                    description@.skip(start as int),
                ),
            ensures
                views(v@) == dedup(raw),
                raw == base + split_glyphs(description@),
            decreases n - start,
        {
            let mut k: usize = start;
            while k < n && description.get_char(k) != ':'
                invariant
                    start <= k <= n,
                    n == description@.len(),
                    forall|j: int| start <= j < k ==> description@[j] != ':',
                decreases n - k,
            {
                k = k + 1;
            }
            let ghost rem = description@.skip(start as int);
            proof {
                assert(forall|j: int|
                    0 <= j < k - start ==> #[trigger] rem[j] == description@[start + j]);
                lemma_first_colon_unique(rem, k - start);
                if k < n {
                    assert(rem.take(k - start) =~= description@.subrange(start as int, k as int));
                    assert(rem.skip(k - start + 1) =~= description@.skip(k as int + 1));
                    assert(split_glyphs(rem) == segment_glyphs(
                        description@.subrange(start as int, k as int),
                    ) + split_glyphs(description@.skip(k as int + 1)));
                } else {
                    assert(rem =~= description@.subrange(start as int, k as int));
                    assert(split_glyphs(rem) == segment_glyphs(
                        description@.subrange(start as int, k as int),
                    ));
                }
            }
            let seg = description.substring_char(start, k);
            let ghost segv = description@.subrange(start as int, k as int);
            if seg.unicode_len() > 0 {
                match shortcode_glyph(seg) {
                    Some(gl) => {
                        proof {
                            lemma_dedup_push(raw, gl@);
                            raw = raw.push(gl@);
                            assert(raw =~= base + processed.push(gl@));
                            assert(segment_glyphs(segv) =~= seq![gl@]);
                            assert(processed.push(gl@) =~= processed + segment_glyphs(segv));
                            processed = processed + segment_glyphs(segv);
                        }
                        push_unique(&mut v, gl);
                    },
                    None => {
                        proof {
                            assert(segment_glyphs(segv) =~= Seq::<Seq<char>>::empty());
                            assert(processed =~= processed + segment_glyphs(segv));
                            processed = processed + segment_glyphs(segv);
                        }
                    },
                }
            } else {
                proof {
                    assert(segment_glyphs(segv) =~= Seq::<Seq<char>>::empty());
                    assert(processed =~= processed + segment_glyphs(segv));
                    processed = processed + segment_glyphs(segv);
                }
            }
            if k < n {
                start = k + 1;
            } else {
                proof {
                    assert(split_glyphs(description@) == processed);
                }
                break;
            }
        }
        proof {
            assert(raw =~= raw_glyphs(type_str@, sscope, breaking, description@));
        }
    } else {
        proof {
            assert(raw =~= raw_glyphs(type_str@, sscope, breaking, description@));
        }
    }

    let mut out = String::new();
    let mut i: usize = 0;
    while i < v.len()
        invariant
            0 <= i <= v@.len(),
            out@ == join_glyphs(views(v@).take(i as int)),
        decreases v@.len() - i,
    {
        let ghost before = views(v@).take(i as int);
        if i > 0 {
            out.append(" ");
        }
        out.append(v[i].as_str());
        proof {
            reveal_strlit(" ");
            assert(" "@ =~= seq![' ']);
            let now_pfx = views(v@).take(i as int + 1);
            assert(now_pfx.drop_last() =~= before);
            assert(now_pfx.last() == v@[i as int]@);
            if i == 0 {
                assert(out@ =~= join_glyphs(now_pfx));
            } else {
                assert(out@ =~= join_glyphs(before) + seq![' '] + v@[i as int]@);
            }
        }
        i = i + 1;
    }
    proof {
        assert(views(v@).take(v@.len() as int) =~= views(v@));
    }
    out
}

} // verus!
