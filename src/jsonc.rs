//! Removing comments from JSON with comments, so that it parses as JSON.
use vstd::prelude::*;

verus! {

/// The state of the comment scanner.
pub struct Scan {
    /// What has been written so far.
    pub out: Seq<char>,
    /// How many block comments are open.
    pub depth: nat,
    /// Whether the scanner is inside a string.
    pub in_string: bool,
    /// The character read but not written yet.
    pub last: Option<char>,
    /// Whether a line comment has ended the current line.
    pub stopped: bool,
}

/// Two spaces when locations are preserved, else nothing.
pub open spec fn filler(keep: bool) -> Seq<char> {
    if keep {
        seq![' ', ' ']
    } else {
        Seq::empty()
    }
}

/// The scanner after reading `c` on the current line.
pub open spec fn step(s: Scan, c: char, keep: bool) -> Scan {
    if s.stopped {
        s
    } else {
        let in_string = if s.depth == 0 && s.last != Some('\\') && c == '"' {
            !s.in_string
        } else {
            s.in_string
        };
        if !in_string && s.last == Some('/') && c == '/' {
            Scan { out: s.out + filler(keep), in_string, last: None, stopped: true, ..s }
        } else if !in_string && s.last == Some('/') && c == '*' {
            Scan { out: s.out + filler(keep), depth: s.depth + 1, in_string, last: None, ..s }
        } else if !in_string && s.last == Some('*') && c == '/' {
            Scan {
                out: s.out + filler(keep),
                depth: if s.depth > 0 {
                    (s.depth - 1) as nat
                } else {
                    0
                },
                in_string,
                last: None,
                ..s
            }
        } else {
            let out = if s.depth == 0 {
                match s.last {
                    Some(l) => s.out.push(l),
                    None => s.out,
                }
            } else if keep {
                s.out.push(' ')
            } else {
                s.out
            };
            Scan { out, in_string, last: Some(c), ..s }
        }
    }
}

/// `s` without its trailing spaces.
pub open spec fn trim_spaces(s: Seq<char>) -> Seq<char>
    decreases s.len(),
{
    if s.len() > 0 && s.last() == ' ' {
        trim_spaces(s.drop_last())
    } else {
        s
    }
}

/// The scanner at the end of a line: the pending character written (or a
/// space in its place inside a block comment, when locations are kept),
/// trailing spaces removed, a newline written, and the next line begun.
pub open spec fn end_line(s: Scan, keep: bool) -> Scan {
    let out = match s.last {
        Some(l) => if s.depth == 0 {
            s.out.push(l)
        } else if keep {
            s.out.push(' ')
        } else {
            s.out
        },
        None => s.out,
    };
    Scan { out: trim_spaces(out).push('\n'), last: None, stopped: false, ..s }
}

/// The scanner after reading `text`, each newline ending a line.
pub open spec fn scan(text: Seq<char>, keep: bool) -> Scan
    decreases text.len(),
{
    if text.len() == 0 {
        Scan { out: Seq::empty(), depth: 0, in_string: false, last: None, stopped: false }
    } else {
        let s = scan(text.drop_last(), keep);
        if text.last() == '\n' {
            end_line(s, keep)
        } else {
            step(s, text.last(), keep)
        }
    }
}

/// The text without its comments: `//` comments to the end of their line,
/// and `/* */` comments, which nest. Inside a string nothing is a comment.
/// Each line loses its trailing spaces and ends with a newline. With
/// `preserve_locations`, comments are replaced by spaces so that positions
/// in the result match those in the text.
pub open spec fn stripped(text: Seq<char>, keep: bool) -> Seq<char> {
    end_line(scan(text, keep), keep).out
}

/// Relies on std's `String: FromIterator<char>`: the string of the given
/// characters, in order.
#[verifier::external_body]
fn string_of(chars: Vec<char>) -> (r: String)
    ensures
        r@ == chars@,
{
    chars.into_iter().collect()
}

fn write_filler(out: &mut Vec<char>, keep: bool)
    ensures
        final(out)@ == old(out)@ + filler(keep),
{
    if keep {
        out.push(' ');
        out.push(' ');
    }
    assert(final(out)@ =~= old(out)@ + filler(keep));
}

/// Takes JSON with comments and returns it without them (see `stripped`).
pub fn strip_jsonc_comments(jsonc_input: &str, preserve_locations: bool) -> (r: String)
    ensures
        r@ == stripped(jsonc_input@, preserve_locations),
{
    let keep = preserve_locations;
    let n = jsonc_input.unicode_len();
    let mut out: Vec<char> = Vec::new();
    let mut depth: usize = 0;
    let mut in_string = false;
    let mut last: Option<char> = None;
    let mut stopped = false;
    let mut i: usize = 0;
    let ghost text = jsonc_input@;
    assert(text.subrange(0, 0) =~= Seq::<char>::empty());
    while i < n
        invariant
            n == text.len(),
            text == jsonc_input@,
            i <= n,
            depth <= i,
            scan(text.subrange(0, i as int), keep) == (Scan {
                out: out@,
                depth: depth as nat,
                in_string,
                last,
                stopped,
            }),
        decreases n - i,
    {
        let c = jsonc_input.get_char(i);
        let ghost p = text.subrange(0, i + 1);
        assert(p.drop_last() =~= text.subrange(0, i as int));
        assert(p.last() == c);
        if c == '\n' {
            match last {
                Some(l) => {
                    if depth == 0 {
                        out.push(l);
                    } else if keep {
                        out.push(' ');
                    }
                },
                None => {},
            }
            let ghost before_trim = out@;
            while out.len() > 0 && out[out.len() - 1] == ' '
                invariant
                    trim_spaces(out@) == trim_spaces(before_trim),
                    out@.len() <= before_trim.len(),
                decreases out@.len(),
            {
                let ghost o = out@;
                out.pop();
                assert(out@ =~= o.drop_last());
            }
            out.push('\n');
            last = None;
            stopped = false;
        } else if !stopped {
            if depth == 0 && last != Some('\\') && c == '"' {
                in_string = !in_string;
            }
            if !in_string && last == Some('/') && c == '/' {
                write_filler(&mut out, keep);
                last = None;
                stopped = true;
            } else if !in_string && last == Some('/') && c == '*' {
                depth = depth + 1;
                write_filler(&mut out, keep);
                last = None;
            } else if !in_string && last == Some('*') && c == '/' {
                if depth > 0 {
                    depth = depth - 1;
                }
                write_filler(&mut out, keep);
                last = None;
            } else {
                if depth == 0 {
                    match last {
                        Some(l) => out.push(l),
                        None => {},
                    }
                } else if keep {
                    out.push(' ');
                }
                last = Some(c);
            }
        }
        i += 1;
    }
    assert(text.subrange(0, n as int) =~= text);
    match last {
        Some(l) => {
            if depth == 0 {
                out.push(l);
            } else if keep {
                out.push(' ');
            }
        },
        None => {},
    }
    let ghost before_trim = out@;
    while out.len() > 0 && out[out.len() - 1] == ' '
        invariant
            trim_spaces(out@) == trim_spaces(before_trim),
            out@.len() <= before_trim.len(),
        decreases out@.len(),
    {
        let ghost o = out@;
        out.pop();
        assert(out@ =~= o.drop_last());
    }
    out.push('\n');
    string_of(out)
}

} // verus!
