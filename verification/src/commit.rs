use vstd::prelude::*;

use crate::parser::bang_part;
use crate::parser::parse;
use crate::parser::render;
use crate::parser::FieldsView;
use crate::parser::lemma_render_injective;
use crate::resolve::format_emoji;
use crate::resolve::resolved;
use crate::style::blue_open;
use crate::style::blue_styled;
use crate::style::bold_open;
use crate::style::bold_styled;
use crate::style::cyan_open;
use crate::style::cyan_styled;
use crate::style::is_styled;
use crate::text::line_cut;
use crate::text::tidy_line;
use crate::text::trim;
use crate::timespan::span_ago;
use crate::timespan::span_ago_of;

verus! {

/// An instant with a fixed offset: seconds since the epoch and an offset in
/// seconds east of UTC.
#[derive(Clone, Copy)]
pub struct Timestamp {
    pub seconds: i64,
    pub offset_seconds: i32,
}

/// The one hard failure: the span between two instants could not be
/// computed or rounded.
#[derive(Clone, Copy, Debug, PartialEq, Eq)]
pub struct SpanError;

/// One commit, as the commit source hands it over.
pub struct Commit {
    pub id: String,
    pub message: String,
    pub timestamp: Timestamp,
    pub url: String,
}

/// The relative-time suffix appended to a formatted line.
pub open spec fn suffix_of(t: Seq<char>) -> Seq<char> {
    seq![' ', '('] + t + seq![' ', 'a', 'g', 'o', ')']
}

/// The tidying every formatted line goes through: append the time suffix,
/// trim, keep the first line, trim again.
pub open spec fn final_line(body: Seq<char>, t: Seq<char>) -> Seq<char> {
    trim(line_cut(trim(body + suffix_of(t))))
}

/// The header in front of the emoji block: the type, the styled scope in
/// brackets, the breaking marker, and a colon.
pub open spec fn header_text(f: FieldsView, ss: Seq<char>) -> Seq<char> {
    f.ty + (match f.scope {
        Option::Some(_) => seq!['('] + ss + seq![')'],
        Option::None => Seq::empty(),
    }) + bang_part(f.breaking) + seq![':']
}

/// How a formatted line relates to the message and the time text `t`, with
/// `ss` and `hh` the styled scope and header. A message that parses as a
/// conventional commit and yields at least one glyph becomes the styled
/// header, the emoji block and the description; any other message stays as
/// it is; either way the time suffix and the first-line cut follow.
pub open spec fn formats_with(
    msg: Seq<char>,
    ss: Seq<char>,
    hh: Seq<char>,
    t: Seq<char>,
    out: Seq<char>,
) -> bool {
    let lc = line_cut(msg);
    &&& ((forall|f: FieldsView| f.wf() ==> #[trigger] render(f) != lc) ==> out == final_line(
        msg,
        t,
    ))
    &&& (forall|f: FieldsView|
        f.wf() && #[trigger] render(f) == lc ==> {
            let em = resolved(f.ty, f.scope, f.breaking, f.description);
            if em.len() == 0 {
                out == final_line(msg, t)
            } else {
                &&& (f.scope matches Some(sc) ==> is_styled(ss, sc, bold_open()))
                &&& is_styled(hh, header_text(f, ss), blue_open())
                &&& out == final_line(hh + seq![' '] + em + seq![' '] + f.description, t)
            }
        })
}

/// The OSC-8 hyperlink wrapping of a piece of display text.
pub open spec fn link_text(url: Seq<char>, text: Seq<char>) -> Seq<char> {
    "\u{1b}]8;;"@ + url + "\u{1b}\\"@ + text + "\u{1b}]8;;"@ + "\u{1b}\\"@
}

/// Emit an OSC-8 hyperlink escape sequence, styled cyan.
pub fn hyperlink(url: &str, text: &str) -> (r: String)
    ensures
        is_styled(r@, link_text(url@, text@), cyan_open()),
{
    let mut s = String::new();
    s.append("\u{1b}]8;;");
    s.append(url);
    s.append("\u{1b}\\");
    s.append(text);
    s.append("\u{1b}]8;;");
    s.append("\u{1b}\\");
    proof {
        assert(s@ =~= link_text(url@, text@));
    }
    cyan_styled(s.as_str())
}

/// The time text of a commit against a reference instant, when the span
/// computation succeeds.
pub open spec fn span_text(c: Commit, now: Timestamp) -> Option<Seq<char>> {
    span_ago_of(c.timestamp.seconds, c.timestamp.offset_seconds, now.seconds, now.offset_seconds)
}

/// How a finished line relates to its commit and the reference instant:
/// there are styled scope and header texts with which the line was formed.
pub open spec fn formats_ok(c: Commit, now: Timestamp, out: Seq<char>) -> bool {
    exists|ss: Seq<char>, hh: Seq<char>|
        #[trigger] formats_with(c.message@, ss, hh, span_text(c, now)->0, out)
}

/// How one bullet line of the feed relates to its commit: the linked short
/// identifier, a space, and the formatted line.
pub open spec fn bullet_ok(c: Commit, now: Timestamp, line: Seq<char>) -> bool {
    exists|idr: Seq<char>, ss: Seq<char>, hh: Seq<char>, body: Seq<char>|
        {
            &&& #[trigger] is_styled(idr, link_text(c.url@ + "/commit/"@ + c.id@, c.id@), cyan_open())
            &&& #[trigger] formats_with(c.message@, ss, hh, span_text(c, now)->0, body)
            &&& line == "  * "@ + idr + seq![' '] + body
        }
}

impl Commit {
    /// The short identifier as a clickable link to the commit's page.
    pub fn id(&self) -> (r: String)
        ensures
            is_styled(r@, link_text(self.url@ + "/commit/"@ + self.id@, self.id@), cyan_open()),
    {
        let mut u = self.url.clone();
        u.append("/commit/");
        u.append(self.id.as_str());
        hyperlink(u.as_str(), self.id.as_str())
    }

    /// Format the commit as one display line: the conventional header with
    /// its emoji block when the message parses and yields at least one
    /// glyph, the raw message otherwise; then the relative-time suffix,
    /// the first-line cut and the trim. Fails exactly when the relative
    /// span cannot be computed; parse failures and emoji misses never do.
    pub fn format(&self, now: &Timestamp) -> (r: Result<String, SpanError>)
        ensures
            r matches Ok(out) ==> formats_ok(*self, *now, out@),
            r is Err <==> span_text(*self, *now) is None,
            r is Ok ==> (span_text(*self, *now) matches Some(t) && !t.contains('\n')),
    {
        let ghost msg = self.message@;
        let ghost lc = line_cut(msg);
        let parsed = parse(self.message.as_str());
        let mut body: String;
        let ghost mut ssv: Seq<char> = Seq::empty();
        let ghost mut hhv: Seq<char> = Seq::empty();
        let ghost mut has_conv = false;
        let ghost mut fv: FieldsView = FieldsView {
            ty: Seq::empty(),
            scope: Option::None,
            breaking: false,
            description: Seq::empty(),
        };
        let ghost mut emv: Seq<char> = Seq::empty();
        match parsed {
            Some(f) => {
                proof {
                    has_conv = true;
                    fv = f@;
                }
                let scope_ref: Option<&str> = match &f.scope {
                    Some(s) => Some(s.as_str()),
                    None => None,
                };
                let emoji = format_emoji(f.ty.as_str(), scope_ref, f.breaking, f.description.as_str());
                proof {
                    emv = emoji@;
                }
                if !emoji.as_str().is_empty() {
                    let mut header = f.ty.clone();
                    match &f.scope {
                        Some(sc) => {
                            let ssx = bold_styled(sc.as_str());
                            proof {
                                ssv = ssx@;
                            }
                            header.append("(");
                            header.append(ssx.as_str());
                            header.append(")");
                        },
                        None => {},
                    }
                    if f.breaking {
                        header.append("!");
                    }
                    header.append(":");
                    proof {
                        reveal_strlit("(");
                        reveal_strlit(")");
                        reveal_strlit("!");
                        reveal_strlit(":");
                        assert("("@ =~= seq!['(']);
                        assert(")"@ =~= seq![')']);
                        assert("!"@ =~= seq!['!']);
                        assert(":"@ =~= seq![':']);
                        assert(header@ =~= header_text(fv, ssv));
                    }
                    let hh = blue_styled(header.as_str());
                    proof {
                        hhv = hh@;
                    }
                    let mut b = hh;
                    b.append(" ");
                    b.append(emoji.as_str());
                    b.append(" ");
                    b.append(f.description.as_str());
                    proof {
                        reveal_strlit(" ");
                        assert(" "@ =~= seq![' ']);
                        assert(b@ =~= hhv + seq![' '] + emv + seq![' '] + fv.description);
                    }
                    body = b;
                } else {
                    body = self.message.clone();
                }
            },
            None => {
                body = self.message.clone();
            },
        }
        let ghost bodyv = body@;
        match span_ago(
            self.timestamp.seconds,
            self.timestamp.offset_seconds,
            now.seconds,
            now.offset_seconds,
        ) {
            None => Err(SpanError),
            Some(tstr) => {
                let ghost t = span_text(*self, *now)->0;
                proof {
                    assert(t == tstr@);
                }
                body.append(" (");
                body.append(tstr.as_str());
                body.append(" ago)");
                let out = tidy_line(body.as_str());
                proof {
                    reveal_strlit(" (");
                    reveal_strlit(" ago)");
                    assert(" ("@ =~= seq![' ', '(']);
                    assert(" ago)"@ =~= seq![' ', 'a', 'g', 'o', ')']);
                    assert(body@ =~= bodyv + suffix_of(t));
                    assert(out@ == final_line(bodyv, t));
                    assert(formats_with(msg, ssv, hhv, t, out@)) by {
                        if has_conv {
                            assert(render(fv) == lc);
                        }
                        assert forall|g: FieldsView| g.wf() && #[trigger] render(g) == lc implies ({
                            let em = resolved(g.ty, g.scope, g.breaking, g.description);
                            if em.len() == 0 {
                                out@ == final_line(msg, t)
                            } else {
                                &&& (g.scope matches Some(sc) ==> is_styled(ssv, sc, bold_open()))
                                &&& is_styled(hhv, header_text(g, ssv), blue_open())
                                &&& out@ == final_line(
                                    hhv + seq![' '] + em + seq![' '] + g.description,
                                    t,
                                )
                            }
                        }) by {
                            assert(has_conv);
                            lemma_render_injective(g, fv);
                        }
                    }
                    assert(formats_ok(*self, *now, out@));
                }
                Ok(out)
            },
        }
    }
}

/// The lines of the activity feed: a heading, a blank line, one bullet per
/// commit in the order given, and a closing blank line — or no lines at all
/// when there are no commits. Fails when formatting some commit fails.
pub fn render_feed(commits: &Vec<Commit>, now: &Timestamp) -> (r: Result<Vec<String>, SpanError>)
    ensures
        match r {
            Ok(lines) => {
                &&& commits@.len() == 0 ==> lines@.len() == 0
                &&& commits@.len() > 0 ==> {
                    &&& lines@.len() == commits@.len() + 3
                    &&& lines@[0]@ == "  ## Recent Activity"@
                    &&& lines@[1]@ == Seq::<char>::empty()
                    &&& lines@[lines@.len() - 1]@ == Seq::<char>::empty()
                    &&& forall|i: int|
                        0 <= i < commits@.len() ==> #[trigger] bullet_ok(
                            commits@[i],
                            *now,
                            lines@[i + 2]@,
                        )
                }
            },
            Err(e) => true,
        },
        commits@.len() == 0 ==> r is Ok,
        r is Ok <==> (forall|i: int|
            #![trigger commits@[i]]
            0 <= i < commits@.len() ==> span_text(commits@[i], *now) is Some),
{
    let mut lines: Vec<String> = Vec::new();
    if commits.len() == 0 {
        return Ok(lines);
    }
    lines.push("  ## Recent Activity".to_owned());
    lines.push(String::new());
    let mut i: usize = 0;
    while i < commits.len()
        invariant
            0 <= i <= commits@.len(),
            lines@.len() == i + 2,
            lines@[0]@ == "  ## Recent Activity"@,
            lines@[1]@ == Seq::<char>::empty(),
            forall|k: int|
                0 <= k < i ==> #[trigger] bullet_ok(commits@[k], *now, lines@[k + 2]@),
            forall|k: int|
                #![trigger commits@[k]]
                0 <= k < i ==> span_text(commits@[k], *now) is Some,
        decreases commits@.len() - i,
    {
        let c = &commits[i];
        let idtext = c.id();
        let line = match c.format(now) {
            Ok(l) => l,
            Err(e) => {
                proof {
                    assert(span_text(commits@[i as int], *now) is None);
                }
                return Err(e);
            },
        };
        let mut b = String::new();
        b.append("  * ");
        b.append(idtext.as_str());
        b.append(" ");
        b.append(line.as_str());
        proof {
            reveal_strlit(" ");
            assert(" "@ =~= seq![' ']);
            let t = span_text(commits@[i as int], *now)->0;
            let (ss, hh) = choose|ss: Seq<char>, hh: Seq<char>|
                #[trigger] formats_with(c.message@, ss, hh, t, line@);
            assert(is_styled(idtext@, link_text(c.url@ + "/commit/"@ + c.id@, c.id@), cyan_open()));
            assert(formats_with(c.message@, ss, hh, t, line@));
            assert(b@ == "  * "@ + idtext@ + seq![' '] + line@);
            assert(bullet_ok(commits@[i as int], *now, b@));
        }
        lines.push(b);
        i = i + 1;
    }
    lines.push(String::new());
    Ok(lines)
}

} // verus!
