//! Source files that hold several programs, set apart by lines of equal signs.

use crate::text::{append_text, begins_with, chars_of, ends_with, has_prefix, has_suffix,
    line_bounds, push_char, skip_backward, skip_forward, skip_space_backward, skip_space_forward,
    text_lines, text_of, trim_char_bounds, trim_space_bounds};
use vstd::prelude::*;

verus! {

/// Whether a line sets two programs apart: it begins and ends with five equal signs.
pub open spec fn is_separator(line: Seq<char>) -> bool {
    begins_with(line, "====="@) && ends_with(line, "====="@)
}

/// The name that a separating line gives to the program after it: what stands between
/// its equal signs, without the white space around it; `None` if that is nothing.
pub open spec fn separator_name(line: Seq<char>) -> Option<Seq<char>> {
    let a = skip_forward(line, 0, line.len() as int, '=');
    let b = skip_backward(line, a, line.len() as int, '=');
    let c = skip_space_forward(line, a, b);
    let d = skip_space_backward(line, c, b);
    if c < d {
        Some(line.subrange(c, d))
    } else {
        None
    }
}

/// What a reader of such a file holds after some lines: the programs that are
/// complete, the name and the text of the program it is reading, and whether it has
/// seen no separating line yet.
pub struct Split {
    pub files: Seq<(Option<Seq<char>>, Seq<char>)>,
    pub name: Option<Seq<char>>,
    pub code: Seq<char>,
    pub first: bool,
}

/// What the reader holds after the first `n` lines. A separating line completes the
/// program before it, unless it is the first separating line: what stands before
/// that one belongs to the first program. Any other line goes to the text of the
/// program, with a line feed after it.
pub open spec fn split_upto(lines: Seq<Seq<char>>, n: nat) -> Split
    decreases n,
{
    if n == 0 || n > lines.len() {
        Split { files: Seq::empty(), name: None, code: Seq::empty(), first: true }
    } else {
        let before = split_upto(lines, (n - 1) as nat);
        let line = lines[n - 1];
        if is_separator(line) {
            if before.first {
                Split { name: separator_name(line), first: false, ..before }
            } else {
                Split {
                    files: before.files.push((before.name, before.code)),
                    name: separator_name(line),
                    code: Seq::empty(),
                    first: false,
                }
            }
        } else {
            Split { code: before.code + line + seq!['\n'], ..before }
        }
    }
}

/// The programs of a file, each with its name if it has one. A file without a
/// separating line and without text is one program without a name: the file itself.
pub open spec fn files_of(code: Seq<char>) -> Seq<(Option<Seq<char>>, Seq<char>)> {
    let lines = text_lines(code, 0);
    let end = split_upto(lines, lines.len());
    if end.code.len() > 0 || end.files.len() > 0 {
        end.files.push((end.name, end.code))
    } else {
        seq![(None, code)]
    }
}

/// The texts of a sequence of programs.
pub open spec fn file_views(files: Seq<(Option<String>, String)>) -> Seq<
    (Option<Seq<char>>, Seq<char>),
> {
    Seq::new(
        files.len(),
        |i: int|
            (
                match files[i].0 {
                    Some(name) => Some(name@),
                    None => None,
                },
                files[i].1@,
            ),
    )
}

/// Splits a file that may hold several programs into its programs.
pub fn parse_multi_file_format(code: &str) -> (files: Vec<(Option<String>, String)>)
    ensures
        file_views(files@) == files_of(code@),
{
    let chars = chars_of(code);
    let bounds = line_bounds(&chars);
    let ghost lines = text_lines(code@, 0);
    let mut files: Vec<(Option<String>, String)> = Vec::new();
    let mut current_code = String::new();
    let mut current_name: Option<String> = None;
    let mut first_file = true;
    let mut i: usize = 0;
    assert(file_views(files@) =~= Seq::empty());
    while i < bounds.len()
        invariant
            i <= bounds.len(),
            chars@ == code@,
            lines == text_lines(chars@, 0),
            bounds@.len() == lines.len(),
            forall|k: int|
                0 <= k < bounds@.len() ==> (#[trigger] bounds@[k]).0 <= bounds@[k].1
                    <= chars@.len() && chars@.subrange(bounds@[k].0 as int, bounds@[k].1 as int)
                    == lines[k],
            file_views(files@) == split_upto(lines, i as nat).files,
            current_code@ == split_upto(lines, i as nat).code,
            first_file == split_upto(lines, i as nat).first,
            match current_name {
                Some(name) => split_upto(lines, i as nat).name == Some(name@),
                None => split_upto(lines, i as nat).name is None,
            },
        decreases bounds.len() - i,
    {
        let (from, to) = bounds[i];
        let ghost line = lines[i as int];
        assert(chars@.subrange(from as int, to as int) == line);
        let start_text = text_of(&chars, from, to);
        let marks_start = has_prefix(&chars_of(start_text.as_str()), "=====");
        if marks_start && has_suffix(&chars, from, to, "=====") {
            if !first_file {
                let ghost before = files@;
                let finished_name = current_name;
                let finished_code = current_code;
                files.push((finished_name, finished_code));
                assert(file_views(files@) =~= file_views(before).push(
                    (split_upto(lines, i as nat).name, split_upto(lines, i as nat).code),
                ));
                current_code = String::new();
            }
            first_file = false;
            let line_chars = chars_of(start_text.as_str());
            let (a, b) = trim_char_bounds(&line_chars, 0, line_chars.len(), '=');
            let (c, d) = trim_space_bounds(&line_chars, a, b);
            assert(line_chars@ == line);
            current_name = if c < d {
                Some(text_of(&line_chars, c, d))
            } else {
                None
            };
        } else {
            append_text(&mut current_code, start_text.as_str());
            push_char(&mut current_code, '\n');
            assert(current_code@ =~= split_upto(lines, i as nat).code + line + seq!['\n']);
        }
        i += 1;
    }
    if current_code.as_str().unicode_len() > 0 || files.len() > 0 {
        let ghost before = files@;
        files.push((current_name, current_code));
        assert(file_views(files@) =~= file_views(before).push(
            (split_upto(lines, lines.len()).name, split_upto(lines, lines.len()).code),
        ));
    } else {
        files.push((None, String::from_str(code)));
        assert(file_views(files@) =~= seq![(None::<Seq<char>>, code@)]);
    }
    files
}

} // verus!
