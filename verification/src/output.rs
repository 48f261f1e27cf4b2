//! Assembling an emitted Go file: the file comment, the package clause, the
//! import block, and the body.

use vstd::prelude::*;
use crate::names::{package_name_of, sanitize_package_name, sanitized_package_name, go_package_name};
use crate::text::{owned, push_char, seq_join, str_eq, views_of, join, lemma_views_push};

verus! {

/// One import of an emitted file; an empty alias imports under the package's
/// own name.
#[derive(Clone, Debug, Eq, Ord, PartialEq, PartialOrd)]
pub struct OutputImport {
    pub path: String,
    pub alias: String,
}

/// An emitted Go file.
#[derive(Clone, Debug)]
pub struct OutputFile {
    pub name: String,
    pub source: String,
    pub imports: Vec<OutputImport>,
    pub package_name: String,
    pub file_comment: Option<String>,
}

/// The lines of `s` as `split('\n')` yields them: the text between newlines,
/// with an empty line after a trailing newline.
pub open spec fn split_lines(s: Seq<char>) -> Seq<Seq<char>>
    decreases s.len(),
{
    if s.len() == 0 {
        seq![Seq::empty()]
    } else {
        let prev = split_lines(s.drop_last());
        if s.last() == '\n' {
            prev.push(Seq::empty())
        } else {
            prev.update(prev.len() - 1, prev.last().push(s.last()))
        }
    }
}

pub proof fn lemma_split_lines_nonempty(s: Seq<char>)
    ensures
        split_lines(s).len() > 0,
    decreases s.len(),
{
    if s.len() > 0 {
        lemma_split_lines_nonempty(s.drop_last());
    }
}

/// Splitting text into lines loses nothing: the lines joined with newlines
/// give the text back.
pub proof fn law_lines_rejoin(s: Seq<char>)
    ensures
        seq_join(split_lines(s), "\n"@) == s,
    decreases s.len(),
{
    reveal_strlit("\n");
    if s.len() > 0 {
        let prev = s.drop_last();
        law_lines_rejoin(prev);
        lemma_split_lines_nonempty(prev);
        let lines = split_lines(prev);
        if s.last() == '\n' {
            let next = lines.push(Seq::empty());
            assert(next.drop_last() =~= lines);
            assert(seq_join(next, "\n"@) =~= s);
        } else {
            let next = lines.update(lines.len() - 1, lines.last().push(s.last()));
            assert(split_lines(s) == next);
            if lines.len() == 1 {
                assert(next =~= seq![lines.last().push(s.last())]);
                assert(seq_join(next, "\n"@) =~= s);
            } else {
                assert(next.drop_last() =~= lines.drop_last());
                assert(seq_join(lines, "\n"@) == seq_join(lines.drop_last(), "\n"@) + "\n"@ + lines.last());
                assert(seq_join(next, "\n"@) == seq_join(lines.drop_last(), "\n"@) + "\n"@ + lines.last().push(
                    s.last(),
                ));
                assert(s =~= prev.push(s.last()));
                assert(seq_join(next, "\n"@) =~= s);
            }
        }
    }
}

/// A doc line as a Go comment line.
pub open spec fn comment_line(line: Seq<char>) -> Seq<char> {
    if line.len() == 0 {
        "//"@
    } else {
        "// "@ + line
    }
}

pub open spec fn comment_lines(text: Seq<char>) -> Seq<Seq<char>> {
    split_lines(text).map_values(|l: Seq<char>| comment_line(l))
}

/// A doc comment as Go comment lines, each ending in a newline; nothing when
/// there is no comment.
pub open spec fn doc_text(doc: Option<String>) -> Seq<char> {
    match doc {
        Some(text) => seq_join(comment_lines(text@), "\n"@).push('\n'),
        None => Seq::empty(),
    }
}

/// Renders a doc comment as Go `//` lines.
pub fn emit_doc(doc: &Option<String>) -> (r: String)
    ensures
        r@ == doc_text(*doc),
{
    match doc {
        Some(text) => {
            let mut r = comment_block(text.as_str());
            push_char(&mut r, '\n');
            r
        },
        None => String::new(),
    }
}

/// The comment lines of `text`, joined by newlines.
fn comment_block(text: &str) -> (r: String)
    ensures
        r@ == seq_join(comment_lines(text@), "\n"@),
{
    let n = text.unicode_len();
    let mut done = String::new();
    let mut current = String::new();
    let ghost mut finished: Seq<Seq<char>> = Seq::empty();
    let mut finished_count: usize = 0;
    proof {
        assert(text@.subrange(0, 0) =~= Seq::<char>::empty());
        assert(split_lines(Seq::<char>::empty()) =~= finished.push(current@));
        reveal_strlit("");
    }
    let mut i: usize = 0;
    while i < n
        invariant
            n == text@.len(),
            i <= n,
            split_lines(text@.subrange(0, i as int)) == finished.push(current@),
            finished_count == finished.len(),
            finished.len() <= i,
            done@ == seq_join(finished.map_values(|l: Seq<char>| comment_line(l)), "\n"@),
        decreases n - i,
    {
        let c = text.get_char(i);
        proof {
            assert(text@.subrange(0, i + 1).drop_last() =~= text@.subrange(0, i as int));
            assert(text@.subrange(0, i + 1).last() == c);
        }
        if c == '\n' {
            let ghost before = done@;
            if finished_count > 0 {
                push_char(&mut done, '\n');
            }
            append_comment_line(&mut done, current.as_str());
            finished_count = finished_count + 1;
            proof {
                let f2 = finished.push(current@);
                let m = f2.map_values(|l: Seq<char>| comment_line(l));
                assert(m.drop_last() =~= finished.map_values(|l: Seq<char>| comment_line(l)));
                assert(m.last() == comment_line(current@));
                if finished.len() == 0 {
                    assert(finished.map_values(|l: Seq<char>| comment_line(l)) =~= Seq::<Seq<char>>::empty());
                    assert(m =~= seq![comment_line(current@)]);
                }
                reveal_strlit("\n");
                assert(done@ =~= seq_join(m, "\n"@));
                finished = f2;
            }
            current = String::new();
            proof {
                assert(split_lines(text@.subrange(0, i + 1)) =~= finished.push(current@));
            }
        } else {
            push_char(&mut current, c);
            proof {
                assert(split_lines(text@.subrange(0, i + 1)) =~= finished.push(current@));
            }
        }
        i = i + 1;
    }
    assert(text@.subrange(0, n as int) =~= text@);
    if finished_count > 0 {
        push_char(&mut done, '\n');
    }
    append_comment_line(&mut done, current.as_str());
    proof {
        let f2 = finished.push(current@);
        let m = f2.map_values(|l: Seq<char>| comment_line(l));
        assert(m.drop_last() =~= finished.map_values(|l: Seq<char>| comment_line(l)));
        if finished.len() == 0 {
            assert(finished.map_values(|l: Seq<char>| comment_line(l)) =~= Seq::<Seq<char>>::empty());
            assert(m =~= seq![comment_line(current@)]);
        }
        reveal_strlit("\n");
        assert(done@ =~= seq_join(m, "\n"@));
        assert(comment_lines(text@) =~= m);
    }
    done
}

fn append_comment_line(out: &mut String, line: &str)
    ensures
        final(out)@ == old(out)@ + comment_line(line@),
{
    if line.unicode_len() == 0 {
        out.append("//");
    } else {
        out.append("// ");
        out.append(line);
    }
}

/// The import line text for `path` under `alias`: a bare quoted path when the
/// alias is empty or the package's own name (unless that name needs
/// sanitizing), otherwise the alias before the path.
pub open spec fn import_text(path: Seq<char>, alias: Seq<char>) -> Seq<char> {
    let default_name = package_name_of(path);
    let quoted = seq!['"'] + path + seq!['"'];
    if alias.len() == 0 || alias == default_name {
        let sanitized = sanitized_package_name(default_name);
        if sanitized != default_name {
            sanitized + seq![' '] + quoted
        } else {
            quoted
        }
    } else {
        alias + seq![' '] + quoted
    }
}

pub fn format_import(path: &str, alias: &str) -> (r: String)
    ensures
        r@ == import_text(path@, alias@),
{
    let default_name = go_package_name(path);
    let mut r = String::new();
    if alias.unicode_len() == 0 || str_eq(alias, default_name) {
        let sanitized = sanitize_package_name(default_name);
        if !str_eq(sanitized.as_str(), default_name) {
            r.append(sanitized.as_str());
            push_char(&mut r, ' ');
        }
    } else {
        r.append(alias);
        push_char(&mut r, ' ');
    }
    push_char(&mut r, '"');
    r.append(path);
    push_char(&mut r, '"');
    assert(r@ =~= import_text(path@, alias@));
    r
}

/// Lines collected for output, joined with newlines when rendered.
pub struct OutputCollector {
    pub output: Vec<String>,
}

impl OutputCollector {
    pub fn new() -> (r: Self)
        ensures
            r.output@.len() == 0,
    {
        OutputCollector { output: Vec::new() }
    }

    pub fn render(&self) -> (r: String)
        ensures
            r@ == seq_join(views_of(self.output@), "\n"@),
    {
        join(&self.output, "\n")
    }

    pub fn collect(&mut self, line: String)
        ensures
            views_of(final(self).output@) == views_of(old(self).output@).push(line@),
    {
        proof {
            lemma_views_push(self.output@, line);
        }
        self.output.push(line);
    }

    pub fn collect_with_blank(&mut self, line: String)
        ensures
            views_of(final(self).output@) == views_of(old(self).output@).push(line@).push(Seq::empty()),
    {
        self.collect(line);
        self.collect(String::new());
    }
}

impl Default for OutputCollector {
    fn default() -> (r: Self)
        ensures
            r.output@.len() == 0,
    {
        Self::new()
    }
}

pub open spec fn import_lines(imports: Seq<OutputImport>) -> Seq<Seq<char>> {
    if imports.len() == 0 {
        Seq::empty()
    } else if imports.len() == 1 {
        seq!["import "@ + import_text(imports[0].path@, imports[0].alias@)]
    } else {
        seq!["import ("@] + imports.map_values(|e: OutputImport| import_text(e.path@, e.alias@)) + seq![
            ")"@,
        ]
    }
}

/// `s` without its trailing newlines.
pub open spec fn without_trailing_newlines(s: Seq<char>) -> Seq<char>
    decreases s.len(),
{
    if s.len() > 0 && s.last() == '\n' {
        without_trailing_newlines(s.drop_last())
    } else {
        s
    }
}

/// The lines of an emitted file: its comment and a blank line when it has
/// one, the package clause, the imports, and the body.
pub open spec fn file_lines(f: OutputFile) -> Seq<Seq<char>> {
    let header = doc_text(f.file_comment);
    (if header.len() > 0 {
        seq![without_trailing_newlines(header), Seq::empty()]
    } else {
        Seq::empty()
    }) + seq!["package "@ + f.package_name@] + import_lines(f.imports@) + seq![f.source@]
}

/// The text of an emitted file before `gofmt`.
pub open spec fn unformatted_text(f: OutputFile) -> Seq<char> {
    seq_join(file_lines(f), "\n"@)
}

fn trim_end_newlines(s: &str) -> (r: &str)
    ensures
        r@ == without_trailing_newlines(s@),
{
    let mut end = s.unicode_len();
    assert(s@.subrange(0, end as int) =~= s@);
    while end > 0 && s.get_char(end - 1) == '\n'
        invariant
            end <= s@.len(),
            without_trailing_newlines(s@.subrange(0, end as int)) == without_trailing_newlines(s@),
        decreases end,
    {
        assert(s@.subrange(0, end as int).drop_last() =~= s@.subrange(0, end - 1));
        end = end - 1;
    }
    proof {
        if end > 0 {
            assert(s@.subrange(0, end as int).last() == s@[end - 1]);
        }
    }
    s.substring_char(0, end)
}

impl OutputFile {
    /// The file's Go text: the `gofmt` output when formatting succeeded,
    /// otherwise the unformatted text.
    pub fn to_go(&self, formatted: Option<String>) -> (r: String)
        ensures
            r@ == match formatted {
                Some(text) => text@,
                None => unformatted_text(*self),
            },
    {
        match formatted {
            Some(text) => text,
            None => self.render_unformatted(),
        }
    }

    /// The file's Go text before `gofmt`.
    pub fn to_go_unformatted(&self) -> (r: String)
        ensures
            r@ == unformatted_text(*self),
    {
        self.render_unformatted()
    }

    fn render_unformatted(&self) -> (r: String)
        ensures
            r@ == unformatted_text(*self),
    {
        let mut output = OutputCollector::new();
        let ghost mut lines: Seq<Seq<char>> = Seq::empty();
        let header = emit_doc(&self.file_comment);
        if header.as_str().unicode_len() > 0 {
            output.collect(owned(trim_end_newlines(header.as_str())));
            output.collect(String::new());
        }
        proof {
            lines = if header@.len() > 0 {
                seq![without_trailing_newlines(header@), Seq::empty()]
            } else {
                Seq::empty()
            };
            assert(views_of(output.output@) =~= lines);
        }
        let mut package_line = owned("package ");
        package_line.append(self.package_name.as_str());
        output.collect(package_line);
        proof {
            lines = lines + seq!["package "@ + self.package_name@];
            assert(views_of(output.output@) =~= lines);
        }
        let count = self.imports.len();
        if count == 1 {
            let mut line = owned("import ");
            let entry = &self.imports[0];
            line.append(format_import(entry.path.as_str(), entry.alias.as_str()).as_str());
            output.collect(line);
        } else if count > 1 {
            output.collect(owned("import ("));
            let ghost before = views_of(output.output@);
            let mut i: usize = 0;
            while i < count
                invariant
                    count == self.imports@.len(),
                    i <= count,
                    views_of(output.output@) == before + self.imports@.take(i as int).map_values(
                        |e: OutputImport| import_text(e.path@, e.alias@),
                    ),
                decreases count - i,
            {
                let entry = &self.imports[i];
                output.collect(format_import(entry.path.as_str(), entry.alias.as_str()));
                assert(self.imports@.take(i + 1).map_values(
                    |e: OutputImport| import_text(e.path@, e.alias@),
                ) =~= self.imports@.take(i as int).map_values(
                    |e: OutputImport| import_text(e.path@, e.alias@),
                ).push(import_text(entry.path@, entry.alias@)));
                i = i + 1;
            }
            assert(self.imports@.take(count as int) =~= self.imports@);
            output.collect(owned(")"));
        }
        proof {
            lines = lines + import_lines(self.imports@);
            assert(views_of(output.output@) =~= lines);
        }
        output.collect(owned(self.source.as_str()));
        proof {
            lines = lines + seq![self.source@];
            assert(views_of(output.output@) =~= lines);
            assert(lines =~= file_lines(*self));
        }
        output.render()
    }
}

} // verus!
