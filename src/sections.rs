use vstd::prelude::*;
use vstd::string::*;
use crate::error::{DriftersError, Result};
use crate::lines::{line_spans, lines_of, span_texts, spans_in};
use crate::paths::{extension, extension_of};
use crate::text::{
    chars_eq_str, chars_of, texts, contains_chars, contains_seq, ends_with, ends_with_chars, is_white,
    is_white_char, lemma_trim_start_at, trim_start,
};

verus! {

/// A line feed.
pub open spec fn nl() -> Seq<char> {
    seq!['\n']
}

/// A line as the codec writes it back: the line, then a line feed.
pub open spec fn emit(line: Seq<char>) -> Seq<char> {
    line + nl()
}

/// The tag that opens a machine-local section, for the comment prefix `cs`.
pub open spec fn start_tag(cs: Seq<char>) -> Seq<char> {
    cs + " drifters::exclude::start"@
}

/// The tag that closes a machine-local section, for the comment prefix `cs`.
pub open spec fn stop_tag(cs: Seq<char>) -> Seq<char> {
    cs + " drifters::exclude::stop"@
}

/// A line holds `tag` when the tag is the first thing on it after any indentation.
pub open spec fn is_tag(line: Seq<char>, tag: Seq<char>) -> bool {
    tag.is_prefix_of(trim_start(line))
}

/// One line of the syncable-content scan; the state is
/// (text kept so far, inside a section, a start tag was seen).
pub open spec fn extract_step(
    st: (Seq<char>, bool, bool),
    line: Seq<char>,
    start: Seq<char>,
    stop: Seq<char>,
) -> (Seq<char>, bool, bool) {
    if is_tag(line, start) {
        (st.0 + emit(line), true, true)
    } else if is_tag(line, stop) {
        (st.0 + emit(line), false, st.2)
    } else if !st.1 {
        (st.0 + emit(line), false, st.2)
    } else {
        st
    }
}

/// The syncable-content scan over `lines`: every line outside a section is kept, and so
/// are the tag lines; the bodies of sections are left out.
pub open spec fn extract_scan(lines: Seq<Seq<char>>, start: Seq<char>, stop: Seq<char>) -> (
    Seq<char>,
    bool,
    bool,
)
    decreases lines.len(),
{
    if lines.len() == 0 {
        (Seq::empty(), false, false)
    } else {
        extract_step(extract_scan(lines.drop_last(), start, stop), lines.last(), start, stop)
    }
}

/// One line of the section scan; the state is
/// (sections closed so far, the section being read, inside a section).
pub open spec fn sections_step(
    st: (Seq<Seq<char>>, Seq<char>, bool),
    line: Seq<char>,
    start: Seq<char>,
    stop: Seq<char>,
) -> (Seq<Seq<char>>, Seq<char>, bool) {
    if is_tag(line, start) {
        (st.0, emit(line), true)
    } else if is_tag(line, stop) {
        (st.0.push(st.1 + emit(line)), st.1 + emit(line), false)
    } else if st.2 {
        (st.0, st.1 + emit(line), true)
    } else {
        st
    }
}

/// The section scan over `lines`: each section runs from a start tag line through the
/// next stop tag line, both included.
pub open spec fn sections_scan(lines: Seq<Seq<char>>, start: Seq<char>, stop: Seq<char>) -> (
    Seq<Seq<char>>,
    Seq<char>,
    bool,
)
    decreases lines.len(),
{
    if lines.len() == 0 {
        (Seq::empty(), Seq::empty(), false)
    } else {
        sections_step(sections_scan(lines.drop_last(), start, stop), lines.last(), start, stop)
    }
}

/// One line of the merge scan over incoming lines; the state is (text written so far,
/// inside a section, local sections used so far, the open section was replaced by a local
/// one).
pub open spec fn merge_step(
    st: (Seq<char>, bool, int, bool),
    line: Seq<char>,
    start: Seq<char>,
    stop: Seq<char>,
    secs: Seq<Seq<char>>,
) -> (Seq<char>, bool, int, bool) {
    if is_tag(line, start) {
        if 0 <= st.2 < secs.len() {
            (st.0 + secs[st.2], true, st.2 + 1, true)
        } else {
            (st.0 + emit(line), true, st.2, false)
        }
    } else if is_tag(line, stop) {
        if st.3 {
            (st.0, false, st.2, false)
        } else {
            (st.0 + emit(line), false, st.2, false)
        }
    } else if !st.1 {
        (st.0 + emit(line), st.1, st.2, st.3)
    } else {
        st
    }
}

/// The merge scan: incoming lines outside sections are written; at the n-th start tag
/// the n-th local section, which carries its own stop tag, is written in place of the
/// incoming section when there is one; otherwise the incoming section's tag lines stay.
pub open spec fn merge_scan(
    lines: Seq<Seq<char>>,
    start: Seq<char>,
    stop: Seq<char>,
    secs: Seq<Seq<char>>,
) -> (Seq<char>, bool, int, bool)
    decreases lines.len(),
{
    if lines.len() == 0 {
        (Seq::empty(), false, 0, false)
    } else {
        merge_step(merge_scan(lines.drop_last(), start, stop, secs), lines.last(), start, stop, secs)
    }
}

/// The text of the error for a start tag that is never closed.
pub open spec fn unclosed_message() -> Seq<char> {
    "unclosed drifters::exclude::start block (missing drifters::exclude::stop)"@
}

/// Whether the line `s[a..b]` holds `tag` as its first non-blank content.
fn has_tag(s: &Vec<char>, a: usize, b: usize, tag: &Vec<char>) -> (r: bool)
    requires
        a <= b <= s@.len(),
    ensures
        r == is_tag(s@.subrange(a as int, b as int), tag@),
{
    let ghost line = s@.subrange(a as int, b as int);
    let mut j: usize = a;
    while j < b && is_white_char(s[j])
        invariant
            a <= j <= b <= s@.len(),
            line == s@.subrange(a as int, b as int),
            forall|i: int| a <= i < j ==> is_white(#[trigger] s@[i]),
        decreases b - j,
    {
        j = j + 1;
    }
    proof {
        assert forall|i: int| 0 <= i < j - a implies is_white(#[trigger] line[i]) by {
            assert(line[i] == s@[a + i]);
        }
        if j < b {
            assert(line[j - a] == s@[j as int]);
        }
        lemma_trim_start_at(line, j - a);
    }
    if tag.len() > b - j {
        return false;
    }
    let mut i: usize = 0;
    while i < tag.len()
        invariant
            a <= j <= b <= s@.len(),
            line == s@.subrange(a as int, b as int),
            trim_start(line) == line.skip(j - a),
            i <= tag@.len() <= b - j,
            forall|k: int| 0 <= k < i ==> s@[j + k] == tag@[k],
        decreases tag@.len() - i,
    {
        if s[j + i] != tag[i] {
            proof {
                assert(trim_start(line)[i as int] == s@[j + i]);
            }
            return false;
        }
        i = i + 1;
    }
    proof {
        assert forall|k: int| 0 <= k < tag@.len() implies trim_start(line)[k] == tag@[k] by {
            assert(trim_start(line)[k] == s@[j + k]);
        }
    }
    true
}

/// Appends the line `content[a..b]` and a line feed to `out`.
fn push_line(out: &mut String, content: &str, a: usize, b: usize)
    requires
        a <= b <= content@.len(),
    ensures
        final(out)@ == old(out)@ + emit(content@.subrange(a as int, b as int)),
{
    out.append(content.substring_char(a, b));
    out.append("\n");
    proof {
        reveal_strlit("\n");
        assert(final(out)@ =~= old(out)@ + emit(content@.subrange(a as int, b as int)));
    }
}

/// The tag text `cs` followed by `suffix`.
fn tag_text(cs: &str, suffix: &str) -> (r: String)
    ensures
        r@ == cs@ + suffix@,
{
    String::from_str(cs).concat(suffix)
}

fn unclosed_error() -> (e: DriftersError)
    ensures
        e matches DriftersError::Config(m) && m@ == unclosed_message(),
{
    DriftersError::config("unclosed drifters::exclude::start block (missing drifters::exclude::stop)")
}

proof fn lemma_take_step(lines: Seq<Seq<char>>, k: int)
    requires
        0 <= k < lines.len(),
    ensures
        lines.take(k + 1).drop_last() == lines.take(k),
        lines.take(k + 1).last() == lines[k],
{
    assert(lines.take(k + 1).drop_last() =~= lines.take(k));
}

/// The content that replicates to other machines: `None` when no start tag appears, so
/// the file replicates as it is; otherwise the text with the bodies of machine-local
/// sections removed and the tag lines kept. A start tag that is never closed is an error.
pub fn extract_syncable_content(content: &str, comment_syntax: &str) -> (r: Result<
    Option<String>,
>)
    ensures
        ({
            let st = extract_scan(
                lines_of(content@),
                start_tag(comment_syntax@),
                stop_tag(comment_syntax@),
            );
            match r {
                Err(e) => st.1 && (e matches DriftersError::Config(m) && m@ == unclosed_message()),
                Ok(None) => !st.1 && !st.2,
                Ok(Some(t)) => !st.1 && st.2 && t@ == st.0,
            }
        }),
{
    let start_s = tag_text(comment_syntax, " drifters::exclude::start");
    let stop_s = tag_text(comment_syntax, " drifters::exclude::stop");
    let start = chars_of(start_s.as_str());
    let stop = chars_of(stop_s.as_str());
    let chars = chars_of(content);
    let spans = line_spans(&chars);
    let ghost lines = lines_of(content@);
    let mut result = String::new();
    let mut in_block = false;
    let mut found = false;
    let mut k: usize = 0;
    while k < spans.len()
        invariant
            chars@ == content@,
            start@ == start_tag(comment_syntax@),
            stop@ == stop_tag(comment_syntax@),
            lines == lines_of(content@),
            spans_in(chars@, spans@),
            span_texts(chars@, spans@) == lines,
            k <= spans@.len(),
            (result@, in_block, found) == extract_scan(
                lines.take(k as int),
                start@,
                stop@,
            ),
        decreases spans@.len() - k,
    {
        let (a, b) = spans[k];
        proof {
            assert(spans_in(chars@, spans@));
            assert(spans@[k as int].0 <= spans@[k as int].1 <= chars@.len());
            lemma_take_step(lines, k as int);
            assert(lines[k as int] == chars@.subrange(a as int, b as int));
        }
        if has_tag(&chars, a, b, &start) {
            in_block = true;
            found = true;
            push_line(&mut result, content, a, b);
        } else if has_tag(&chars, a, b, &stop) {
            in_block = false;
            push_line(&mut result, content, a, b);
        } else if !in_block {
            push_line(&mut result, content, a, b);
        }
        k = k + 1;
    }
    proof {
        assert(lines.take(spans@.len() as int) =~= lines);
    }
    if in_block {
        return Err(unclosed_error());
    }
    if found {
        Ok(Some(result))
    } else {
        Ok(None)
    }
}

/// The machine-local sections of `content`, in order, each from its start tag line
/// through its stop tag line. A start tag that is never closed is an error.
pub fn extract_exclude_sections(content: &str, start_tag: &str, stop_tag: &str) -> (r: Result<
    Vec<String>,
>)
    ensures
        ({
            let st = sections_scan(lines_of(content@), start_tag@, stop_tag@);
            match r {
                Err(e) => st.2 && (e matches DriftersError::Config(m) && m@ == unclosed_message()),
                Ok(v) => !st.2 && texts(v@) == st.0,
            }
        }),
{
    let start = chars_of(start_tag);
    let stop = chars_of(stop_tag);
    let chars = chars_of(content);
    let spans = line_spans(&chars);
    let ghost lines = lines_of(content@);
    let mut sections: Vec<String> = Vec::new();
    let mut current = String::new();
    let mut in_section = false;
    let mut k: usize = 0;
    while k < spans.len()
        invariant
            chars@ == content@,
            start@ == start_tag@,
            stop@ == stop_tag@,
            lines == lines_of(content@),
            spans_in(chars@, spans@),
            span_texts(chars@, spans@) == lines,
            k <= spans@.len(),
            (texts(sections@), current@, in_section) == sections_scan(
                lines.take(k as int),
                start@,
                stop@,
            ),
        decreases spans@.len() - k,
    {
        let (a, b) = spans[k];
        proof {
            assert(spans@[k as int].0 <= spans@[k as int].1 <= chars@.len());
            lemma_take_step(lines, k as int);
            assert(lines[k as int] == chars@.subrange(a as int, b as int));
        }
        if has_tag(&chars, a, b, &start) {
            in_section = true;
            current = String::new();
            push_line(&mut current, content, a, b);
        } else if has_tag(&chars, a, b, &stop) {
            push_line(&mut current, content, a, b);
            let ghost old_sections = sections@;
            sections.push(current.clone());
            proof {
                assert(texts(sections@) =~= texts(old_sections).push(current@));
            }
            in_section = false;
        } else if in_section {
            push_line(&mut current, content, a, b);
        }
        k = k + 1;
    }
    proof {
        assert(lines.take(spans@.len() as int) =~= lines);
    }
    if in_section {
        return Err(unclosed_error());
    }
    Ok(sections)
}

/// Writes `synced_content` back over the local file: every incoming line outside a
/// section is taken, and at the n-th start tag the n-th section of `local_content` is
/// written verbatim in place of the incoming one, when the local file has that many;
/// otherwise the incoming section's tag lines are kept. A start tag that is never closed,
/// in either text, is an error.
pub fn merge_synced_content(local_content: &str, synced_content: &str, comment_syntax: &str) -> (r:
    Result<String>)
    ensures
        ({
            let start = start_tag(comment_syntax@);
            let stop = stop_tag(comment_syntax@);
            let ss = sections_scan(lines_of(local_content@), start, stop);
            let m = merge_scan(lines_of(synced_content@), start, stop, ss.0);
            match r {
                Err(e) => (ss.2 || m.1) && (e matches DriftersError::Config(msg) && msg@
                    == unclosed_message()),
                Ok(t) => !ss.2 && !m.1 && t@ == m.0,
            }
        }),
{
    let start_s = tag_text(comment_syntax, " drifters::exclude::start");
    let stop_s = tag_text(comment_syntax, " drifters::exclude::stop");
    let local_excludes = extract_exclude_sections(local_content, start_s.as_str(), stop_s.as_str())?;
    let ghost secs = texts(local_excludes@);
    let start = chars_of(start_s.as_str());
    let stop = chars_of(stop_s.as_str());
    let chars = chars_of(synced_content);
    let spans = line_spans(&chars);
    let ghost lines = lines_of(synced_content@);
    let mut result = String::new();
    let mut in_block = false;
    let mut exclude_index: usize = 0;
    let mut replaced = false;
    let mut k: usize = 0;
    while k < spans.len()
        invariant
            chars@ == synced_content@,
            start@ == start_tag(comment_syntax@),
            stop@ == stop_tag(comment_syntax@),
            secs == texts(local_excludes@),
            lines == lines_of(synced_content@),
            spans_in(chars@, spans@),
            span_texts(chars@, spans@) == lines,
            k <= spans@.len(),
            exclude_index <= local_excludes@.len(),
            (result@, in_block, exclude_index as int, replaced) == merge_scan(
                lines.take(k as int),
                start@,
                stop@,
                secs,
            ),
        decreases spans@.len() - k,
    {
        let (a, b) = spans[k];
        proof {
            assert(spans@[k as int].0 <= spans@[k as int].1 <= chars@.len());
            lemma_take_step(lines, k as int);
            assert(lines[k as int] == chars@.subrange(a as int, b as int));
        }
        if has_tag(&chars, a, b, &start) {
            if exclude_index < local_excludes.len() {
                result.append(local_excludes[exclude_index].as_str());
                exclude_index = exclude_index + 1;
                replaced = true;
            } else {
                push_line(&mut result, synced_content, a, b);
                replaced = false;
            }
            in_block = true;
        } else if has_tag(&chars, a, b, &stop) {
            in_block = false;
            if !replaced {
                push_line(&mut result, synced_content, a, b);
            }
            replaced = false;
        } else if !in_block {
            push_line(&mut result, synced_content, a, b);
        }
        k = k + 1;
    }
    proof {
        assert(lines.take(spans@.len() as int) =~= lines);
    }
    if in_block {
        return Err(unclosed_error());
    }
    Ok(result)
}

/// The line-comment prefix that the extension `e` calls for.
pub open spec fn comment_for_ext(e: Seq<char>) -> Seq<char> {
    if e == "sh"@ || e == "bash"@ || e == "zsh"@ || e == "py"@ || e == "rb"@ || e == "yaml"@
        || e == "yml"@ || e == "toml"@ || e == "conf"@ {
        "#"@
    } else if e == "js"@ || e == "ts"@ || e == "jsx"@ || e == "tsx"@ || e == "c"@ || e == "cpp"@
        || e == "h"@ || e == "hpp"@ || e == "rs"@ || e == "go"@ || e == "java"@ {
        "//"@
    } else if e == "lua"@ || e == "sql"@ {
        "--"@
    } else if e == "vim"@ {
        "\""@
    } else {
        "#"@
    }
}

/// The line-comment prefix for the file `filename`: Vim's for names that hold `vimrc` or
/// end in `.vim`, else the one its extension calls for, and `#` for any other file.
pub open spec fn comment_syntax_for(filename: Seq<char>) -> Seq<char> {
    if contains_seq(filename, "vimrc"@) || ends_with(filename, ".vim"@) {
        "\""@
    } else {
        match extension(filename) {
            Some(e) => comment_for_ext(e),
            None => "#"@,
        }
    }
}

fn ext_among(e: &Vec<char>, names: &[&str]) -> (r: bool)
    ensures
        r == exists|i: int| 0 <= i < names@.len() && e@ == (#[trigger] names@[i])@,
{
    let mut i: usize = 0;
    while i < names.len()
        invariant
            i <= names@.len(),
            forall|j: int| 0 <= j < i ==> e@ != (#[trigger] names@[j])@,
        decreases names@.len() - i,
    {
        if chars_eq_str(e, names[i]) {
            return true;
        }
        i = i + 1;
    }
    false
}

/// The comment prefix to use for the file `filename`.
pub fn detect_comment_syntax(filename: &str) -> (r: &'static str)
    ensures
        r@ == comment_syntax_for(filename@),
{
    let name = chars_of(filename);
    let vimrc = chars_of("vimrc");
    let dot_vim = chars_of(".vim");
    if contains_chars(&name, &vimrc) || ends_with_chars(&name, &dot_vim) {
        return "\"";
    }
    match extension_of(&name) {
        Some(e) => {
            let hash_exts: [&str; 9] = ["sh", "bash", "zsh", "py", "rb", "yaml", "yml", "toml", "conf"];
            let slash_exts: [&str; 11] = ["js", "ts", "jsx", "tsx", "c", "cpp", "h", "hpp", "rs", "go", "java"];
            let dash_exts: [&str; 2] = ["lua", "sql"];
            if ext_among(&e, &hash_exts) {
                "#"
            } else if ext_among(&e, &slash_exts) {
                "//"
            } else if ext_among(&e, &dash_exts) {
                "--"
            } else if chars_eq_str(&e, "vim") {
                "\""
            } else {
                "#"
            }
        },
        None => "#",
    }
}

} // verus!
