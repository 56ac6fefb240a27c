use vstd::prelude::*;

use crate::is_token_char;
use crate::is_token_char_exec;
use crate::text::cut_line;
use crate::text::line_cut;

verus! {

/// The structured fields of a conventional commit header
/// `type(scope)!: description`.
pub struct ConventionalFields {
    pub ty: String,
    pub scope: Option<String>,
    pub breaking: bool,
    pub description: String,
}

/// The mathematical shape of the fields.
pub struct FieldsView {
    pub ty: Seq<char>,
    pub scope: Option<Seq<char>>,
    pub breaking: bool,
    pub description: Seq<char>,
}

impl View for ConventionalFields {
    type V = FieldsView;

    open spec fn view(&self) -> FieldsView {
        FieldsView {
            ty: self.ty@,
            scope: match self.scope {
                Option::Some(s) => Option::Some(s@),
                Option::None => Option::None,
            },
            breaking: self.breaking,
            description: self.description@,
        }
    }
}

/// A non-empty run of token characters.
pub open spec fn is_token(s: Seq<char>) -> bool {
    s.len() > 0 && forall|i: int| 0 <= i < s.len() ==> is_token_char(s[i])
}

impl FieldsView {
    /// Type and scope are tokens; the description is free.
    pub open spec fn wf(self) -> bool {
        &&& is_token(self.ty)
        &&& match self.scope {
            Option::Some(sc) => is_token(sc),
            Option::None => true,
        }
    }
}

/// The bracketed scope as it appears in the header, if any.
pub open spec fn scope_part(scope: Option<Seq<char>>) -> Seq<char> {
    match scope {
        Option::Some(sc) => seq!['('] + sc + seq![')'],
        Option::None => Seq::empty(),
    }
}

/// The breaking marker as it appears in the header, if any.
pub open spec fn bang_part(breaking: bool) -> Seq<char> {
    if breaking {
        seq!['!']
    } else {
        Seq::empty()
    }
}

/// The header line that a set of fields prints as.
pub open spec fn render(f: FieldsView) -> Seq<char> {
    f.ty + scope_part(f.scope) + bang_part(f.breaking) + seq![':', ' '] + f.description
}

/// Where each part of a rendered header sits.
pub proof fn lemma_render_facts(f: FieldsView)
    requires
        f.wf(),
    ensures
        ({
            let s = render(f);
            let n1 = f.ty.len() as int;
            let n2 = scope_part(f.scope).len() as int;
            let n3 = bang_part(f.breaking).len() as int;
            &&& s.len() == n1 + n2 + n3 + 2 + f.description.len()
            &&& forall|i: int| 0 <= i < n1 ==> s[i] == f.ty[i]
            &&& forall|i: int| 0 <= i < n2 ==> s[n1 + i] == scope_part(f.scope)[i]
            &&& forall|i: int| 0 <= i < n3 ==> s[n1 + n2 + i] == bang_part(f.breaking)[i]
            &&& s[n1 + n2 + n3] == ':'
            &&& s[n1 + n2 + n3 + 1] == ' '
            &&& forall|i: int|
                0 <= i < f.description.len() ==> s[n1 + n2 + n3 + 2 + i] == f.description[i]
        }),
{
}

/// Where each character of a bracketed scope sits.
pub proof fn lemma_scope_part_facts(sc: Seq<char>)
    ensures
        ({
            let p = scope_part(Option::Some(sc));
            &&& p.len() == sc.len() + 2
            &&& p[0] == '('
            &&& forall|i: int| 0 <= i < sc.len() ==> p[1 + i] == sc[i]
            &&& p[sc.len() as int + 1] == ')'
        }),
{
}

/// On a rendered well-formed header, the type is exactly the leading run of
/// token characters: any index that cuts such a run off equals its length.
pub proof fn lemma_render_positions(f: FieldsView, s: Seq<char>, t: int)
    requires
        f.wf(),
        render(f) == s,
        0 <= t <= s.len(),
        forall|k: int| 0 <= k < t ==> is_token_char(s[k]),
        t == s.len() || !is_token_char(s[t]),
    ensures
        f.ty.len() == t,
        t + 2 <= s.len(),
        f.ty == s.take(t),
        (f.scope is Some) <==> s[t] == '(',
{
    lemma_render_facts(f);
    let n1 = f.ty.len() as int;
    let n2 = scope_part(f.scope).len() as int;
    assert(!is_token_char(s[n1])) by {
        match f.scope {
            Option::Some(sc) => {
                lemma_scope_part_facts(sc);
                assert(s[n1] == '(');
            },
            Option::None => {
                if f.breaking {
                    assert(s[n1] == '!');
                } else {
                    assert(s[n1] == ':');
                }
            },
        }
    }
    if n1 < t {
        assert(is_token_char(s[n1]));
        assert(false);
    }
    if t < n1 {
        assert(s[t] == f.ty[t]);
        assert(is_token_char(f.ty[t]));
        assert(false);
    }
    assert(f.ty =~= s.take(t));
    match f.scope {
        Option::Some(sc) => {
            lemma_scope_part_facts(sc);
            assert(s[t] == '(');
        },
        Option::None => {
            if f.breaking {
                assert(s[t] == '!');
            } else {
                assert(s[t] == ':');
            }
            assert(s[t] != '(');
        },
    }
}

/// On a rendered header with a scope, the scope is the token run after the
/// opening bracket, and the closing bracket stands right after it.
pub proof fn lemma_render_scope(f: FieldsView, s: Seq<char>, t: int, j: int)
    requires
        f.wf(),
        render(f) == s,
        f.ty.len() == t,
        f.scope is Some,
        t + 1 <= j <= s.len(),
        forall|k: int| t + 1 <= k < j ==> is_token_char(s[k]),
        j == s.len() || !is_token_char(s[j]),
    ensures
        t + 2 <= j < s.len(),
        s[j] == ')',
        f.scope == Option::Some(s.subrange(t + 1, j)),
{
    lemma_render_facts(f);
    let sc = f.scope->0;
    lemma_scope_part_facts(sc);
    let m = sc.len() as int;
    let close = t + 1 + m;
    assert(s[close] == ')');
    assert(forall|i: int| 0 <= i < m ==> s[t + 1 + i] == sc[i]);
    if close < j {
        assert(is_token_char(s[close]));
        assert(false);
    }
    if j < close {
        assert(s[j] == sc[j - t - 1]);
        assert(is_token_char(sc[j - t - 1]));
        assert(j < s.len());
        assert(!is_token_char(s[j]));
        assert(false);
    }
    assert(sc =~= s.subrange(t + 1, j));
}

/// On a rendered header, what stands after the type and scope: the breaking
/// marker exactly when the fields carry it, then `: `, then the description.
pub proof fn lemma_render_tail(f: FieldsView, s: Seq<char>, q: int)
    requires
        f.wf(),
        render(f) == s,
        q == f.ty.len() + scope_part(f.scope).len(),
    ensures
        q < s.len(),
        (f.breaking <==> s[q] == '!'),
        ({
            let q2 = q + bang_part(f.breaking).len();
            &&& q2 + 2 <= s.len()
            &&& s[q2] == ':'
            &&& s[q2 + 1] == ' '
            &&& f.description == s.skip(q2 + 2)
        }),
{
    lemma_render_facts(f);
    let q2 = q + bang_part(f.breaking).len() as int;
    if f.breaking {
        assert(s[q] == '!');
    } else {
        assert(s[q] == ':');
    }
    assert(s[q2] == ':');
    assert(s[q2 + 1] == ' ');
    assert(f.description =~= s.skip(q2 + 2));
}

/// No two distinct well-formed field sets print as the same header line.
pub proof fn lemma_render_injective(f: FieldsView, g: FieldsView)
    requires
        f.wf(),
        g.wf(),
        render(f) == render(g),
    ensures
        f == g,
{
    let s = render(f);
    lemma_render_facts(f);
    let t = f.ty.len() as int;
    assert(forall|k: int| 0 <= k < t ==> is_token_char(s[k])) by {
        assert(forall|k: int| 0 <= k < t ==> s[k] == f.ty[k]);
    }
    lemma_render_positions(f, s, t);
    lemma_render_positions(g, s, t);
    assert(f.ty == g.ty);
    match f.scope {
        Option::Some(sc) => {
            assert(s[t] == '(');
            assert(g.scope is Some);
            lemma_scope_part_facts(sc);
            let j = t + 1 + sc.len() as int;
            assert(forall|k: int| t + 1 <= k < j ==> s[k] == sc[k - t - 1]);
            assert(forall|k: int| t + 1 <= k < j ==> is_token_char(s[k]));
            assert(s[j] == ')');
            lemma_render_scope(f, s, t, j);
            lemma_render_scope(g, s, t, j);
            assert(f.scope == g.scope);
        },
        Option::None => {
            assert(s[t] != '(');
            assert(g.scope is None);
            assert(f.scope == g.scope);
        },
    }
    let q = t + scope_part(f.scope).len() as int;
    lemma_render_tail(f, s, q);
    lemma_render_tail(g, s, q);
    assert(f.breaking == g.breaking);
    assert(f.description == g.description);
}

/// Parse a commit message as a conventional commit: the first line must read
/// `type(scope)!: description`, with the scope and the marker optional. The
/// result is exactly the set of fields that prints as that line, and `None`
/// exactly when no well-formed fields do.
#[verifier::rlimit(100)]
pub fn parse(message: &str) -> (r: Option<ConventionalFields>)
    ensures
        match r {
            Some(f) => f@.wf() && render(f@) == line_cut(message@),
            None => forall|f: FieldsView| f.wf() ==> render(f) != line_cut(message@),
        },
{
    let line = cut_line(message);
    let ls = line.as_str();
    let e = ls.unicode_len();
    let ghost lc = line_cut(message@);

    let mut t: usize = 0;
    while t < e && is_token_char_exec(ls.get_char(t))
        invariant
            0 <= t <= e,
            e == ls@.len(),
            ls@ == lc,
            forall|k: int| 0 <= k < t ==> is_token_char(ls@[k]),
        decreases e - t,
    {
        t = t + 1;
    }
    if t == 0 {
        proof {
            assert forall|f: FieldsView| f.wf() implies render(f) != lc by {
                if render(f) == lc {
                    lemma_render_positions(f, lc, 0);
                    assert(false);
                }
            }
        }
        return None;
    }

    let mut pos: usize = t;
    let mut scope_str: Option<String> = None;
    let ghost mut scope_v: Option<Seq<char>> = Option::None;
    let ghost mut scope_end: int = t as int;
    if pos < e && ls.get_char(pos) == '(' {
        let mut j: usize = pos + 1;
        while j < e && is_token_char_exec(ls.get_char(j))
            invariant
                pos + 1 <= j <= e,
                pos == t,
                e == ls@.len(),
                ls@ == lc,
                forall|k: int| pos + 1 <= k < j ==> is_token_char(ls@[k]),
            decreases e - j,
        {
            j = j + 1;
        }
        if j < e && j > pos + 1 && ls.get_char(j) == ')' {
            let sc = ls.substring_char(pos + 1, j).to_owned();
            proof {
                scope_v = Option::Some(sc@);
                scope_end = j as int;
            }
            scope_str = Some(sc);
            pos = j + 1;
        } else {
            proof {
                assert forall|f: FieldsView| f.wf() implies render(f) != lc by {
                    if render(f) == lc {
                        lemma_render_positions(f, lc, t as int);
                        assert(f.scope is Some);
                        lemma_render_scope(f, lc, t as int, j as int);
                        assert(false);
                    }
                }
            }
            return None;
        }
    }
    let ghost after_scope = pos as int;
    proof {
        assert(scope_v is Some ==> {
            &&& lc[t as int] == '('
            &&& t + 2 <= scope_end < e
            &&& lc[scope_end] == ')'
            &&& after_scope == scope_end + 1
            &&& (forall|k: int| t + 1 <= k < scope_end ==> is_token_char(lc[k]))
            &&& scope_v->0 == lc.subrange(t + 1, scope_end)
        });
        assert(scope_v is None ==> after_scope == t as int && (t as int == e as int || lc[t as int]
            != '('));
        assert(match scope_str {
            Some(s) => scope_v == Option::Some(s@),
            None => scope_v is None,
        });
    }

    let mut breaking = false;
    if pos < e && ls.get_char(pos) == '!' {
        breaking = true;
        pos = pos + 1;
    }
    proof {
        assert(pos == after_scope + (if breaking {
            1int
        } else {
            0int
        }));
        assert(breaking ==> after_scope < e && lc[after_scope] == '!');
        assert(!breaking ==> after_scope == e as int || lc[after_scope] != '!');
    }

    if pos < e && ls.get_char(pos) == ':' && pos + 1 < e && ls.get_char(pos + 1) == ' ' {
        let ty = ls.substring_char(0, t).to_owned();
        let description = ls.substring_char(pos + 2, e).to_owned();
        let f = ConventionalFields { ty, scope: scope_str, breaking, description };
        proof {
            let n1 = t as int;
            let n2 = scope_part(f@.scope).len() as int;
            let n3 = bang_part(f@.breaking).len() as int;
            assert(f@.wf()) by {
                match scope_v {
                    Option::Some(sc) => {
                        assert(forall|i: int|
                            0 <= i < sc.len() ==> sc[i] == lc[t + 1 + i] && is_token_char(
                                lc[t + 1 + i],
                            ));
                    },
                    Option::None => {},
                }
            }
            lemma_render_facts(f@);
            match scope_v {
                Option::Some(sc) => {
                    lemma_scope_part_facts(sc);
                    assert(n2 == after_scope - t);
                    assert forall|i: int| 0 <= i < n2 implies scope_part(f@.scope)[i] == lc[n1
                        + i] by {
                        if i == 0 {
                        } else if i == n2 - 1 {
                        } else {
                            assert(scope_part(f@.scope)[i] == sc[i - 1]);
                            assert(sc[i - 1] == lc[t + 1 + (i - 1)]);
                        }
                    }
                },
                Option::None => {
                    assert(n2 == 0);
                },
            }
            assert(n1 + n2 + n3 == pos as int);
            assert(f@.description == lc.subrange(pos + 2, e as int));
            assert(render(f@).len() == lc.len());
            assert forall|i: int| 0 <= i < lc.len() implies render(f@)[i] == lc[i] by {
                if i < n1 {
                    assert(render(f@)[i] == f@.ty[i]);
                    assert(f@.ty[i] == lc[i]);
                } else if i < n1 + n2 {
                    assert(render(f@)[i] == scope_part(f@.scope)[i - n1]);
                } else if i < n1 + n2 + n3 {
                    assert(render(f@)[i] == '!');
                    assert(lc[i] == '!');
                } else if i == n1 + n2 + n3 {
                    assert(render(f@)[i] == ':');
                } else if i == n1 + n2 + n3 + 1 {
                    assert(render(f@)[i] == ' ');
                } else {
                    assert(render(f@)[i] == f@.description[i - (n1 + n2 + n3 + 2)]);
                    assert(f@.description[i - (n1 + n2 + n3 + 2)] == lc[i]);
                }
            }
            assert(render(f@) =~= lc);
        }
        return Some(f);
    }

    proof {
        assert forall|f: FieldsView| f.wf() implies render(f) != lc by {
            if render(f) == lc {
                lemma_render_positions(f, lc, t as int);
                if scope_v is Some {
                    assert(f.scope is Some);
                    lemma_render_scope(f, lc, t as int, scope_end);
                } else {
                    assert(f.scope is None);
                }
                let q = f.ty.len() + scope_part(f.scope).len() as int;
                assert(q == after_scope) by {
                    match f.scope {
                        Option::Some(sc) => {
                            assert(scope_part(f.scope).len() == sc.len() + 2);
                            assert(sc == lc.subrange(t + 1, scope_end));
                        },
                        Option::None => {},
                    }
                }
                lemma_render_tail(f, lc, q);
                assert(f.breaking == breaking);
                let q2 = q + bang_part(f.breaking).len() as int;
                assert(q2 == pos as int);
                assert(lc[q2] == ':' && lc[q2 + 1] == ' ' && q2 + 2 <= e);
                assert(false);
            }
        }
    }
    None
}

} // verus!
