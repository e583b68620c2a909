//! Shader program handles and shader-source parsing.  A shader wraps the
//! id of a linked program object in the graphics API; compiling, linking,
//! binding and uniform upload are graphics-API calls and live outside this
//! crate.  Splitting one source file into its vertex, fragment and
//! geometry sections is plain text processing and is verified here.

use vstd::prelude::*;
use vstd::string::StrSliceExecFns;
use vstd::string::StringExecFns;

verus! {

/// `needle` occurs contiguously somewhere in `hay`.
pub open spec fn contains_seq(hay: Seq<char>, needle: Seq<char>) -> bool {
    exists|i: int|
        0 <= i && i + needle.len() <= hay.len() && #[trigger] hay.subrange(i, i + needle.len())
            == needle
}

/// Index of the first newline of `s`, or `s.len()` when there is none.
pub open spec fn line_break(s: Seq<char>) -> int
    decreases s.len(),
{
    if s.len() == 0 {
        0
    } else if s[0] == '\n' {
        0
    } else {
        1 + line_break(s.subrange(1, s.len() as int))
    }
}

/// `line_break` points at the first newline: everything before it is not a
/// newline, and it is a newline unless the string has none.
pub proof fn lemma_line_break_bounds(s: Seq<char>)
    ensures
        0 <= line_break(s) <= s.len(),
        line_break(s) < s.len() ==> s[line_break(s)] == '\n',
        forall|j: int| 0 <= j < line_break(s) ==> s[j] != '\n',
    decreases s.len(),
{
    if s.len() > 0 && s[0] != '\n' {
        let t = s.subrange(1, s.len() as int);
        lemma_line_break_bounds(t);
        assert forall|j: int| 0 <= j < line_break(s) implies s[j] != '\n' by {
            if j > 0 {
                assert(t[j - 1] != '\n');
            }
        }
        if line_break(s) < s.len() {
            assert(s[line_break(s)] == t[line_break(t)]);
        }
    }
}

/// The index of the first newline, characterized without recursion: no
/// newline before `k`, and a newline (or the end) at `k`.
pub proof fn lemma_line_break_at(s: Seq<char>, k: int)
    requires
        0 <= k <= s.len(),
        forall|j: int| 0 <= j < k ==> s[j] != '\n',
        k < s.len() ==> s[k] == '\n',
    ensures
        line_break(s) == k,
    decreases s.len(),
{
    if s.len() == 0 {
    } else if s[0] == '\n' {
        assert(k == 0);
    } else {
        let t = s.subrange(1, s.len() as int);
        assert(k >= 1);
        assert forall|j: int| 0 <= j < k - 1 implies t[j] != '\n' by {
            assert(t[j] == s[j + 1]);
        }
        lemma_line_break_at(t, k - 1);
    }
}

/// The first line of `s`, as `str::lines` yields it: everything up to the
/// first newline, with one trailing carriage return stripped.
pub open spec fn first_line(s: Seq<char>) -> Seq<char> {
    let raw = s.subrange(0, line_break(s));
    if raw.len() > 0 && raw.last() == '\r' {
        raw.drop_last()
    } else {
        raw
    }
}

/// What follows the first line and its newline.
pub open spec fn rest_lines(s: Seq<char>) -> Seq<char> {
    if line_break(s) < s.len() {
        s.subrange(line_break(s) + 1, s.len() as int)
    } else {
        Seq::empty()
    }
}

/// The vertex, fragment and geometry sources accumulated from `s`,
/// starting in bucket `mode` (0 none, 1 vertex, 2 fragment, 3 geometry).
/// A line containing `#shader` selects the bucket named on it; every other
/// line is appended, with a newline, to the current bucket, and dropped
/// while no bucket is selected.
pub open spec fn parse_shader_sources(s: Seq<char>, mode: int) -> (Seq<char>, Seq<char>, Seq<
    char,
>)
    decreases s.len(),
    via parse_shader_sources_decreases
{
    if s.len() == 0 {
        (Seq::empty(), Seq::empty(), Seq::empty())
    } else {
        let line = first_line(s);
        let rest = rest_lines(s);
        if contains_seq(line, "#shader"@) {
            let mode2 = if contains_seq(line, "vertex"@) {
                1int
            } else if contains_seq(line, "fragment"@) {
                2int
            } else if contains_seq(line, "geometry"@) {
                3int
            } else {
                mode
            };
            parse_shader_sources(rest, mode2)
        } else {
            let tail = parse_shader_sources(rest, mode);
            if mode == 1 {
                (line.push('\n') + tail.0, tail.1, tail.2)
            } else if mode == 2 {
                (tail.0, line.push('\n') + tail.1, tail.2)
            } else if mode == 3 {
                (tail.0, tail.1, line.push('\n') + tail.2)
            } else {
                tail
            }
        }
    }
}

#[via_fn]
proof fn parse_shader_sources_decreases(s: Seq<char>, mode: int) {
    if s.len() > 0 {
        lemma_line_break_bounds(s);
    }
}

/// Whether `pat` occurs in the character range `[start, end)` of `s`.
fn str_range_contains(s: &str, start: usize, end: usize, pat: &str) -> (r: bool)
    requires
        start <= end,
        end <= s@.len(),
    ensures
        r == contains_seq(s@.subrange(start as int, end as int), pat@),
{
    let ghost hay: Seq<char> = s@.subrange(start as int, end as int);
    let hay_len: usize = end - start;
    let pat_len: usize = pat.unicode_len();
    if pat_len > hay_len {
        proof {
            if contains_seq(hay, pat@) {
                let w = choose|i: int|
                    0 <= i && i + pat@.len() <= hay.len() && #[trigger] hay.subrange(
                        i,
                        i + pat@.len(),
                    ) == pat@;
            }
        }
        return false;
    }
    let mut i: usize = 0;
    while i <= hay_len - pat_len
        invariant
            start <= end <= s@.len(),
            hay == s@.subrange(start as int, end as int),
            pat_len == pat@.len(),
            hay_len == end - start,
            pat_len <= hay_len,
            i <= hay_len - pat_len + 1,
            forall|ii: int|
                0 <= ii < i ==> #[trigger] hay.subrange(ii, ii + pat@.len()) != pat@,
        decreases hay_len - pat_len - i + 1,
    {
        let mut j: usize = 0;
        let mut matches = true;
        while j < pat_len && matches
            invariant
                start <= end <= s@.len(),
                hay == s@.subrange(start as int, end as int),
                pat_len == pat@.len(),
                hay_len == end - start,
                pat_len <= hay_len,
                i <= hay_len - pat_len,
                j <= pat_len,
                matches ==> forall|jj: int|
                    0 <= jj < j ==> s@[start + i + jj] == pat@[jj],
                !matches ==> exists|jj: int|
                    0 <= jj < pat@.len() && s@[start + i + jj] != #[trigger] pat@[jj],
            decreases pat_len - j,
        {
            if s.get_char(start + i + j) != pat.get_char(j) {
                matches = false;
            }
            j = j + 1;
        }
        if matches {
            proof {
                assert(hay.subrange(i as int, i + pat@.len()) =~= pat@) by {
                    assert forall|jj: int| 0 <= jj < pat@.len() implies hay.subrange(
                        i as int,
                        i + pat@.len(),
                    )[jj] == pat@[jj] by {
                        assert(hay[i + jj] == s@[start + i + jj]);
                    }
                }
            }
            return true;
        }
        proof {
            let jj = choose|jj: int|
                0 <= jj < pat@.len() && s@[start + i + jj] != #[trigger] pat@[jj];
            assert(hay.subrange(i as int, i + pat@.len())[jj] != pat@[jj]);
        }
        i = i + 1;
    }
    proof {
        if contains_seq(hay, pat@) {
            let w = choose|ii: int|
                0 <= ii && ii + pat@.len() <= hay.len() && #[trigger] hay.subrange(
                    ii,
                    ii + pat@.len(),
                ) == pat@;
            assert(hay.subrange(w, w + pat@.len()) != pat@);
        }
    }
    false
}

/// A linked shader program: the id of a program object in the graphics
/// API.
pub struct Shader {
    pub gl_buffer_id: u32,
}

impl Shader {
    /// Wraps an already linked program object.
    pub fn from_raw(gl_buffer_id: u32) -> (r: Shader)
        ensures
            r.gl_buffer_id == gl_buffer_id,
    {
        Shader { gl_buffer_id }
    }

    /// The type tag of a uniform, reported as its location re-interpreted
    /// as an unsigned value.
    pub fn get_type(&self, location: i32) -> (r: u32)
        ensures
            r == location as u32,
    {
        location as u32
    }

    /// Splits one shader source file into its vertex, fragment and
    /// geometry sections: a line containing `#shader` selects the section
    /// named on it, and every other line goes to the selected section.
    /// Returns the three sources in that order.
    #[verifier::rlimit(80)]
    pub fn parse(shader_source: &str) -> (r: Vec<String>)
        ensures
            r@.len() == 3,
            r@[0]@ == parse_shader_sources(shader_source@, 0).0,
            r@[1]@ == parse_shader_sources(shader_source@, 0).1,
            r@[2]@ == parse_shader_sources(shader_source@, 0).2,
    {
        let ghost src: Seq<char> = shader_source@;
        let ghost target: (Seq<char>, Seq<char>, Seq<char>) = parse_shader_sources(src, 0);
        let n: usize = shader_source.unicode_len();
        let mut vertex = String::new();
        let mut fragment = String::new();
        let mut geometry = String::new();
        let mut mode: u8 = 0;
        let mut pos: usize = 0;
        proof {
            assert(src.subrange(0, n as int) =~= src);
            assert(Seq::<char>::empty() + target.0 =~= target.0);
            assert(Seq::<char>::empty() + target.1 =~= target.1);
            assert(Seq::<char>::empty() + target.2 =~= target.2);
        }
        while pos < n
            invariant
                n == src.len(),
                src == shader_source@,
                pos <= n,
                mode <= 3,
                target == parse_shader_sources(src, 0),
                target.0 == vertex@ + parse_shader_sources(
                    src.subrange(pos as int, n as int),
                    mode as int,
                ).0,
                target.1 == fragment@ + parse_shader_sources(
                    src.subrange(pos as int, n as int),
                    mode as int,
                ).1,
                target.2 == geometry@ + parse_shader_sources(
                    src.subrange(pos as int, n as int),
                    mode as int,
                ).2,
            decreases n - pos,
        {
            let ghost rem: Seq<char> = src.subrange(pos as int, n as int);

            // Find the end of the current line.
            let mut e: usize = pos;
            while e < n && shader_source.get_char(e) != '\n'
                invariant
                    src == shader_source@,
                    n == src.len(),
                    pos <= e <= n,
                    forall|j: int| pos <= j < e ==> src[j] != '\n',
                decreases n - e,
            {
                e = e + 1;
            }
            proof {
                assert forall|j: int| 0 <= j < e - pos implies rem[j] != '\n' by {
                    assert(rem[j] == src[pos + j]);
                }
                if (e - pos) < rem.len() {
                    assert(rem[e - pos] == src[e as int]);
                }
                lemma_line_break_at(rem, e - pos);
            }

            // Strip one trailing carriage return, as `str::lines` does.
            let mut le: usize = e;
            if le > pos && shader_source.get_char(le - 1) == '\r' {
                le = le - 1;
            }
            proof {
                let raw = rem.subrange(0, e - pos);
                assert(raw =~= src.subrange(pos as int, e as int));
                if raw.len() > 0 {
                    assert(raw.last() == src[e - 1]);
                }
                assert(first_line(rem) =~= src.subrange(pos as int, le as int));
            }

            if str_range_contains(shader_source, pos, le, "#shader") {
                if str_range_contains(shader_source, pos, le, "vertex") {
                    mode = 1;
                } else if str_range_contains(shader_source, pos, le, "fragment") {
                    mode = 2;
                } else if str_range_contains(shader_source, pos, le, "geometry") {
                    mode = 3;
                }
            } else if mode != 0 {
                let line_str = shader_source.substring_char(pos, le);
                proof {
                    reveal_strlit("\n");
                }
                if mode == 1 {
                    vertex.append(line_str);
                    vertex.append("\n");
                } else if mode == 2 {
                    fragment.append(line_str);
                    fragment.append("\n");
                } else {
                    geometry.append(line_str);
                    geometry.append("\n");
                }
                proof {
                    assert(line_str@.push('\n') =~= line_str@ + "\n"@);
                }
            }

            proof {
                if e < n {
                    assert(rest_lines(rem) =~= src.subrange(e + 1, n as int));
                } else {
                    assert(rest_lines(rem) =~= src.subrange(n as int, n as int));
                }
                assert(vertex@ + (first_line(rem).push('\n') + parse_shader_sources(
                    rest_lines(rem),
                    mode as int,
                ).0) =~= (vertex@ + first_line(rem).push('\n')) + parse_shader_sources(
                    rest_lines(rem),
                    mode as int,
                ).0);
                assert(fragment@ + (first_line(rem).push('\n') + parse_shader_sources(
                    rest_lines(rem),
                    mode as int,
                ).1) =~= (fragment@ + first_line(rem).push('\n')) + parse_shader_sources(
                    rest_lines(rem),
                    mode as int,
                ).1);
                assert(geometry@ + (first_line(rem).push('\n') + parse_shader_sources(
                    rest_lines(rem),
                    mode as int,
                ).2) =~= (geometry@ + first_line(rem).push('\n')) + parse_shader_sources(
                    rest_lines(rem),
                    mode as int,
                ).2);
            }
            pos = if e < n {
                e + 1
            } else {
                n
            };
        }
        proof {
            assert(src.subrange(n as int, n as int) =~= Seq::<char>::empty());
            assert(target.0 =~= vertex@);
            assert(target.1 =~= fragment@);
            assert(target.2 =~= geometry@);
        }
        let mut r: Vec<String> = Vec::new();
        r.push(vertex);
        r.push(fragment);
        r.push(geometry);
        r
    }
}

} // verus!
