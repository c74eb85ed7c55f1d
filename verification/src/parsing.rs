use vstd::prelude::*;
use vstd::string::StringSliceAdditionalSpecFns;

verus! {

/// Index of the first newline byte at or after position `i`, or the
/// length of the text if there is none.
pub open spec fn next_nl_byte(s: Seq<u8>, i: int) -> int
    decreases s.len() - i when 0 <= i <= s.len()
{
    if i >= s.len() {
        s.len() as int
    } else if s[i] == 10 {
        i
    } else {
        next_nl_byte(s, i + 1)
    }
}

proof fn lemma_next_nl_byte(s: Seq<u8>, i: int)
    requires
        0 <= i <= s.len(),
    ensures
        i <= next_nl_byte(s, i) <= s.len(),
        next_nl_byte(s, i) < s.len() ==> s[next_nl_byte(s, i)] == 10,
        forall|j: int| i <= j < next_nl_byte(s, i) ==> s[j] != 10,
    decreases s.len() - i,
{
    if i < s.len() && s[i] != 10 {
        lemma_next_nl_byte(s, i + 1);
    }
}

/// Byte offset at which the 1-based line `line` starts, or `s.len() + 1`
/// if the text has no such line.
pub open spec fn line_start_byte(s: Seq<u8>, line: int) -> int
    decreases line when line >= 1
{
    if line <= 1 {
        0
    } else {
        let p = line_start_byte(s, line - 1);
        if 0 <= p <= s.len() {
            let n = next_nl_byte(s, p);
            if n < s.len() {
                n + 1
            } else {
                s.len() as int + 1
            }
        } else {
            s.len() as int + 1
        }
    }
}

proof fn lemma_line_start_byte_bounds(s: Seq<u8>, line: int)
    requires
        line >= 1,
    ensures
        0 <= line_start_byte(s, line) <= s.len() + 1,
    decreases line,
{
    if line > 1 {
        lemma_line_start_byte_bounds(s, line - 1);
        if line_start_byte(s, line - 1) <= s.len() {
            lemma_next_nl_byte(s, line_start_byte(s, line - 1));
        }
    }
}

/// Once a line is absent, all later lines are absent too.
proof fn lemma_line_start_byte_monotone_invalid(s: Seq<u8>, line: int, later: int)
    requires
        1 <= line <= later,
        line_start_byte(s, line) == s.len() + 1,
    ensures
        line_start_byte(s, later) == s.len() + 1,
    decreases later - line,
{
    if later > line {
        lemma_line_start_byte_monotone_invalid(s, line, later - 1);
    }
}

/// Length in bytes of the 1-based line `line` (newline excluded).
pub open spec fn line_len_byte(s: Seq<u8>, line: int) -> int {
    next_nl_byte(s, line_start_byte(s, line)) - line_start_byte(s, line)
}

/// Whether the text has a 1-based line `line` with at least one byte of
/// its own (a position past the final newline belongs to no line).
pub open spec fn has_line_byte(s: Seq<u8>, line: int) -> bool {
    line >= 1 && line_start_byte(s, line) < s.len()
}

/// The byte count the walk accumulates when the wanted line lies beyond
/// the text: every line contributes its length plus one (the final line
/// counts a closing newline whether or not it has one).
pub open spec fn past_end_count(s: Seq<u8>) -> int {
    if s.len() == 0 {
        0
    } else if s.last() == 10 {
        s.len() as int
    } else {
        s.len() as int + 1
    }
}

/// The text of the error a too-short line is refused with.
pub open spec fn column_error_text(line_num: nat, line_len: nat, column_num: nat) -> Seq<char> {
    "line `"@ + crate::utils::spec_dec(line_num) + "` have `"@ + crate::utils::spec_dec(line_len)
        + "` characters and doesn't have `"@ + crate::utils::spec_dec(column_num) + "` column"@
}

/// Turn what the host's line and column counters report into a byte
/// offset in the file content, for handing to a byte-oriented tokenizer.
/// The line that the position names must be long enough to have the
/// column; a position past its line is refused with a message. For a
/// line number beyond the text the accumulated byte count is returned
/// as it stands.
pub fn line_and_column_to_offset(file_content: &str, line_num: u32, column_num: u32) -> (r: Result<
    u32,
    String,
>)
    requires
        column_num >= 1,
        file_content.spec_bytes().len() < 0x4000_0000,
    ensures
        has_line_byte(file_content.spec_bytes(), line_num as int) ==> ({
            let s = file_content.spec_bytes();
            &&& ((r is Err) <==> line_len_byte(s, line_num as int) < column_num)
            &&& (line_len_byte(s, line_num as int) >= column_num ==> r == Ok::<u32, String>(
                (line_start_byte(s, line_num as int) + column_num - 1) as u32,
            ))
        }),
        line_num >= 1 && !has_line_byte(file_content.spec_bytes(), line_num as int) ==> r == Ok::<
            u32,
            String,
        >(past_end_count(file_content.spec_bytes()) as u32),
        line_num == 0 ==> r == Ok::<u32, String>(0),
        r matches Err(m) ==> m@ == column_error_text(
            line_num as nat,
            line_len_byte(file_content.spec_bytes(), line_num as int) as nat,
            column_num as nat,
        ),
{
    let ghost s = file_content.spec_bytes();
    let bytes = file_content.as_bytes_vec();
    let mut bytes_before: u32 = 0;
    let mut line: u32 = 1;
    let mut pos: usize = 0;
    while line < line_num || line_num < 1
        invariant
            1 <= line,
            line_num >= 1 ==> line <= line_num,
            s == bytes@,
            s == file_content.spec_bytes(),
            s.len() < 0x4000_0000,
            pos == line_start_byte(s, line as int),
            pos <= s.len(),
            bytes_before == pos,
            pos > 0 ==> s[pos - 1] == 10,
            line_num < 1 ==> line == 1 && pos == 0,
        decreases
                if line_num >= 1 {
                    line_num - line
                } else {
                    0
                },
    {
        if line_num < 1 {
            // no 1-based line matches; report the bytes seen so far
            // (the walk has not started, so nothing was counted)
            return Ok(bytes_before);
        }
        let mut j: usize = pos;
        proof {
            lemma_next_nl_byte(s, pos as int);
        }
        while j < bytes.len() && bytes[j] != 10
            invariant
                pos <= j <= s.len(),
                next_nl_byte(s, pos as int) == next_nl_byte(s, j as int),
                s == bytes@,
                s == file_content.spec_bytes(),
            decreases s.len() - j,
        {
            proof {
                lemma_next_nl_byte(s, j as int);
            }
            j = j + 1;
        }
        proof {
            lemma_next_nl_byte(s, j as int);
            assert(next_nl_byte(s, pos as int) == j);
        }
        if j == bytes.len() {
            // the wanted line is beyond the text: the count stands,
            // including this unterminated final line if it has bytes
            proof {
                assert(line_start_byte(s, line + 1) == s.len() + 1);
                lemma_line_start_byte_monotone_invalid(s, line + 1, line_num as int);
            }
            if pos < bytes.len() {
                proof {
                    assert(s[s.len() - 1] != 10);
                    assert(past_end_count(s) == s.len() + 1);
                }
                return Ok(bytes_before + ((j - pos) as u32) + 1);
            }
            proof {
                assert(pos == s.len());
                assert(past_end_count(s) == pos);
            }
            return Ok(bytes_before);
        }
        bytes_before = bytes_before + ((j - pos) as u32) + 1;
        pos = j + 1;
        line = line + 1;
    }
    if pos == bytes.len() {
        // the wanted line is just past the text: the count stands
        proof {
            assert(past_end_count(s) == pos);
        }
        return Ok(bytes_before);
    }
    proof {
        assert(line as int == line_num as int);
        assert(pos as int == line_start_byte(s, line_num as int));
    }
    // measure the target line
    let mut j: usize = pos;
    proof {
        lemma_next_nl_byte(s, pos as int);
    }
    while j < bytes.len() && bytes[j] != 10
        invariant
            pos <= j <= s.len(),
            next_nl_byte(s, pos as int) == next_nl_byte(s, j as int),
            s == bytes@,
            s == file_content.spec_bytes(),
        decreases s.len() - j,
    {
        proof {
            lemma_next_nl_byte(s, j as int);
        }
        j = j + 1;
    }
    proof {
        lemma_next_nl_byte(s, j as int);
        assert(next_nl_byte(s, pos as int) == j);
    }
    proof {
        assert(line_len_byte(s, line_num as int) == j - pos);
    }
    let line_length = (j - pos) as u32;
    if line_length < column_num {
        let mut v: Vec<char> = Vec::new();
        crate::utils::push_str_chars(&mut v, "line `");
        crate::utils::push_str_chars(
            &mut v,
            crate::utils::usize_to_string(line_num as usize).as_str(),
        );
        crate::utils::push_str_chars(&mut v, "` have `");
        crate::utils::push_str_chars(
            &mut v,
            crate::utils::usize_to_string(line_length as usize).as_str(),
        );
        crate::utils::push_str_chars(&mut v, "` characters and doesn't have `");
        crate::utils::push_str_chars(
            &mut v,
            crate::utils::usize_to_string(column_num as usize).as_str(),
        );
        crate::utils::push_str_chars(&mut v, "` column");
        proof {
            assert(v@ =~= column_error_text(
                line_num as nat,
                line_len_byte(s, line_num as int) as nat,
                column_num as nat,
            ));
        }
        return Err(crate::utils::chars_to_string(&v));
    }
    Ok(bytes_before + column_num - 1)
}

} // verus!
