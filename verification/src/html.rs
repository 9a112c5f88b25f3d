//! Formats HTML for display in the console: markup is dropped and runs of
//! spaces are collapsed to one.

use vstd::prelude::*;
use crate::text::{chars_of, push_char};

verus! {

/// One step of the renderer: the text shown so far and whether the reader
/// is inside a tag, after reading `c`.
pub open spec fn show_step(state: (Seq<char>, bool), c: char) -> (Seq<char>, bool) {
    let (out, in_tag) = state;
    if c == '<' {
        (out, true)
    } else if c == '>' {
        (out, false)
    } else if c == ' ' && out.len() > 0 && out.last() == ' ' {
        (out, in_tag)
    } else if !in_tag {
        (out.push(c), in_tag)
    } else {
        (out, in_tag)
    }
}

/// The renderer's state after reading all of `s`.
pub open spec fn show_state(s: Seq<char>) -> (Seq<char>, bool)
    decreases s.len(),
{
    if s.len() == 0 {
        (Seq::empty(), false)
    } else {
        show_step(show_state(s.drop_last()), s.last())
    }
}

/// The console text of an HTML body.
pub open spec fn shown(s: Seq<char>) -> Seq<char> {
    show_state(s).0
}

/// `s` holds no angle bracket.
pub open spec fn has_no_markup(s: Seq<char>) -> bool {
    forall|i: int| 0 <= i < s.len() ==> #[trigger] s[i] != '<' && s[i] != '>'
}

/// No two spaces stand side by side in `s`.
pub open spec fn has_no_double_space(s: Seq<char>) -> bool {
    forall|i: int| 0 <= i < s.len() - 1 ==> !(#[trigger] s[i] == ' ' && s[i + 1] == ' ')
}

/// Renders an HTML body as console text: everything between `<` and `>`
/// is dropped together with the brackets, and a space that would follow a
/// space already written is dropped.
pub fn show(body: &str) -> (output: String)
    ensures
        output@ == shown(body@),
{
    let chars = chars_of(body);
    let mut output = String::new();
    let mut in_tag = false;
    let mut ends_with_space = false;
    let mut i: usize = 0;
    assert(chars@.take(0) =~= Seq::<char>::empty());
    while i < chars.len()
        invariant
            i <= chars.len(),
            (output@, in_tag) == show_state(chars@.take(i as int)),
            ends_with_space == (output@.len() > 0 && output@.last() == ' '),
        decreases chars.len() - i,
    {
        let c = chars[i];
        match c {
            '<' => in_tag = true,
            '>' => in_tag = false,
            ' ' if ends_with_space => {},
            _ if !in_tag => {
                push_char(&mut output, c);
                ends_with_space = c == ' ';
            },
            _ => {},
        }
        i += 1;
        assert(chars@.take(i as int).drop_last() =~= chars@.take(i - 1));
    }
    assert(chars@.take(chars@.len() as int) =~= chars@);
    output
}

/// Console text holds no markup, and no two spaces side by side; the reader
/// may be left inside an unclosed tag.
proof fn lemma_show_state_clean(s: Seq<char>)
    ensures
        has_no_markup(shown(s)),
        has_no_double_space(shown(s)),
        shown(s).len() <= s.len(),
    decreases s.len(),
{
    if s.len() > 0 {
        lemma_show_state_clean(s.drop_last());
        let out = shown(s.drop_last());
        let c = s.last();
        if !(c == '<' || c == '>' || (c == ' ' && out.len() > 0 && out.last() == ' '))
            && !show_state(s.drop_last()).1 {
            let o = out.push(c);
            assert(shown(s) == o);
            assert forall|i: int| 0 <= i < o.len() implies #[trigger] o[i] != '<' && o[i] != '>' by {
                if i < out.len() {
                    assert(o[i] == out[i]);
                }
            }
            assert forall|i: int| 0 <= i < o.len() - 1 implies !(#[trigger] o[i] == ' ' && o[i + 1]
                == ' ') by {
                if i < out.len() - 1 {
                    assert(o[i] == out[i] && o[i + 1] == out[i + 1]);
                }
            }
        }
    }
}

/// The console text of any body holds no `<` or `>`.
pub proof fn lemma_show_drops_markup(body: Seq<char>)
    ensures
        has_no_markup(shown(body)),
{
    lemma_show_state_clean(body);
}

/// The console text of any body never has two spaces side by side.
pub proof fn lemma_show_collapses_spaces(body: Seq<char>)
    ensures
        has_no_double_space(shown(body)),
{
    lemma_show_state_clean(body);
}

/// The console text is never longer than the body.
pub proof fn lemma_show_never_grows(body: Seq<char>)
    ensures
        shown(body).len() <= body.len(),
{
    lemma_show_state_clean(body);
}

/// Text without markup and without double spaces is shown exactly as it is.
pub proof fn lemma_show_keeps_plain_text(text: Seq<char>)
    requires
        has_no_markup(text),
        has_no_double_space(text),
    ensures
        shown(text) == text,
        !show_state(text).1,
    decreases text.len(),
{
    if text.len() > 0 {
        let p = text.drop_last();
        assert(has_no_markup(p)) by {
            assert forall|i: int| 0 <= i < p.len() implies #[trigger] p[i] != '<' && p[i] != '>' by {
                assert(p[i] == text[i]);
            }
        }
        assert(has_no_double_space(p)) by {
            assert forall|i: int| 0 <= i < p.len() - 1 implies !(#[trigger] p[i] == ' ' && p[i + 1]
                == ' ') by {
                assert(p[i] == text[i] && p[i + 1] == text[i + 1]);
            }
        }
        lemma_show_keeps_plain_text(p);
        assert(text[text.len() - 1] != '<');
        if p.len() > 0 {
            assert(!(text[text.len() - 2] == ' ' && text[text.len() - 1] == ' '));
        }
        assert(p.push(text.last()) =~= text);
    }
}

/// Showing is idempotent: console text shown again is unchanged.
pub proof fn lemma_show_idempotent(body: Seq<char>)
    ensures
        shown(shown(body)) == shown(body),
{
    lemma_show_state_clean(body);
    lemma_show_keeps_plain_text(shown(body));
}

/// An empty body shows nothing, and the reader starts outside any tag.
pub proof fn lemma_show_empty()
    ensures
        shown(Seq::empty()) == Seq::<char>::empty(),
        !show_state(Seq::empty()).1,
{
}

/// What reading one more character does to the console text. A `<` opens a
/// tag and a `>` closes one; neither is shown. Outside a tag, a space is
/// written exactly when the text so far does not end with a space, whatever
/// came before it in the body (a tag included), and any other character is
/// written as it is. Inside a tag nothing is written.
pub proof fn lemma_show_next_char(s: Seq<char>, c: char)
    ensures
        c == '<' ==> shown(s.push(c)) == shown(s) && show_state(s.push(c)).1,
        c == '>' ==> shown(s.push(c)) == shown(s) && !show_state(s.push(c)).1,
        c != '<' && c != '>' ==> show_state(s.push(c)).1 == show_state(s).1,
        c == ' ' ==> shown(s.push(c)) == if !show_state(s).1 && !(shown(s).len() > 0
            && shown(s).last() == ' ') {
            shown(s).push(' ')
        } else {
            shown(s)
        },
        c != '<' && c != '>' && c != ' ' ==> shown(s.push(c)) == if !show_state(s).1 {
            shown(s).push(c)
        } else {
            shown(s)
        },
{
    assert(s.push(c).drop_last() =~= s);
}

/// A complete tag is invisible: reading it leaves the console text and the
/// reader's state as they were, so `shown(s + "<b>" + " x")` equals
/// `shown(s + " x")` for a body `s` that leaves the reader outside a tag.
pub proof fn lemma_show_skips_tag(s: Seq<char>, tag: Seq<char>, t: Seq<char>)
    requires
        !show_state(s).1,
        has_no_markup(tag),
    ensures
        shown(s + seq!['<'] + tag + seq!['>'] + t) == shown(s + t),
{
    lemma_show_skips_tag_state(s, tag, t);
}

/// After `s`, a whole tag leaves the reader's state unchanged.
proof fn lemma_tag_leaves_state(s: Seq<char>, tag: Seq<char>)
    requires
        !show_state(s).1,
        has_no_markup(tag),
    ensures
        show_state(s + seq!['<'] + tag + seq!['>']) == show_state(s),
{
    lemma_show_next_char(s, '<');
    lemma_inside_tag(s.push('<'), tag);
    assert(s + seq!['<'] =~= s.push('<'));
    lemma_show_next_char(s.push('<') + tag, '>');
    assert((s.push('<') + tag).push('>') =~= s + seq!['<'] + tag + seq!['>']);
    assert((s + seq!['<'] + tag + seq!['>']).drop_last() =~= s.push('<') + tag);
}

/// Inside a tag, text without brackets changes nothing.
proof fn lemma_inside_tag(s: Seq<char>, t: Seq<char>)
    requires
        show_state(s).1,
        has_no_markup(t),
    ensures
        show_state(s + t) == show_state(s),
    decreases t.len(),
{
    if t.len() == 0 {
        assert(s + t =~= s);
    } else {
        let u = t.drop_last();
        assert(has_no_markup(u)) by {
            assert forall|i: int| 0 <= i < u.len() implies #[trigger] u[i] != '<' && u[i] != '>' by {
                assert(u[i] == t[i]);
            }
        }
        lemma_inside_tag(s, u);
        assert((s + t).drop_last() =~= s + u);
        assert(t[t.len() - 1] != '<');
    }
}

/// The reader's state after `s`, a tag, and `t` is its state after `s` and `t`.
proof fn lemma_show_skips_tag_state(s: Seq<char>, tag: Seq<char>, t: Seq<char>)
    requires
        !show_state(s).1,
        has_no_markup(tag),
    ensures
        show_state(s + seq!['<'] + tag + seq!['>'] + t) == show_state(s + t),
    decreases t.len(),
{
    if t.len() == 0 {
        lemma_tag_leaves_state(s, tag);
        assert(s + seq!['<'] + tag + seq!['>'] + t =~= s + seq!['<'] + tag + seq!['>']);
        assert(s + t =~= s);
    } else {
        let u = t.drop_last();
        lemma_show_skips_tag_state(s, tag, u);
        assert((s + seq!['<'] + tag + seq!['>'] + t).drop_last() =~= s + seq!['<'] + tag + seq![
            '>',
        ] + u);
        assert((s + t).drop_last() =~= s + u);
    }
}

} // verus!
