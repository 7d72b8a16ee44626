//! The compute side of file reading: size gating, binary detection,
//! line splitting and range selection, and the rendering of read reports.
//! Reading the bytes themselves is the caller's concern.

use vstd::prelude::*;

verus! {

use crate::error::FsError;
use crate::list::{join_newline, join_lines};
use crate::util::{dec_rep, spec_format_size, format_size, u64_to_string};

/// The number of leading bytes inspected for null bytes when detecting
/// binary files.
pub const BINARY_CHECK_SIZE: usize = 8192;

/// What a byte buffer decodes to when interpreted as UTF-8 with invalid
/// sequences replaced; the result depends on the bytes alone.
pub uninterp spec fn lossy_decode(bytes: Seq<u8>) -> Seq<char>;

/// Relies on String::from_utf8_lossy: decodes bytes as UTF-8, replacing
/// invalid sequences; the result is a function of the bytes alone, and
/// empty input decodes to the empty string.
#[verifier::external_body]
pub fn decode_lossy(content: &Vec<u8>) -> (r: String)
    ensures
        r@ == lossy_decode(content@),
        content@.len() == 0 ==> r@.len() == 0,
{
    String::from_utf8_lossy(content).into_owned()
}

/// Whether the leading window of the bytes holds a null byte.
pub open spec fn has_null_prefix(bytes: Seq<u8>) -> bool {
    exists|i: int|
        0 <= i < bytes.len() && i < BINARY_CHECK_SIZE && #[trigger] bytes[i] == 0
}

/// Detects binary content: a null byte within the leading window.
pub fn is_binary(content: &Vec<u8>) -> (b: bool)
    ensures
        b == has_null_prefix(content@),
{
    let n = if content.len() < BINARY_CHECK_SIZE {
        content.len()
    } else {
        BINARY_CHECK_SIZE
    };
    let mut i: usize = 0;
    while i < n
        invariant
            i <= n,
            n <= content@.len(),
            n == (if content@.len() < BINARY_CHECK_SIZE {
                content@.len() as int
            } else {
                BINARY_CHECK_SIZE as int
            }),
            forall|k: int| 0 <= k < i ==> #[trigger] content@[k] != 0,
        decreases n - i,
    {
        if content[i] == 0 {
            return true;
        }
        i += 1;
    }
    false
}

/// A line with one trailing carriage return removed.
pub open spec fn strip_cr(l: Seq<char>) -> Seq<char> {
    if l.len() > 0 && l.last() == '\r' {
        l.drop_last()
    } else {
        l
    }
}

/// Left-to-right split of text into lines, with `cur` the line read so
/// far.  A line ending at a newline loses one trailing carriage return; a
/// final line without a newline is kept as it stands; text ending in a
/// newline yields no extra empty line.
pub open spec fn lines_rec(s: Seq<char>, cur: Seq<char>) -> Seq<Seq<char>>
    decreases s.len(),
{
    if s.len() == 0 {
        if cur.len() == 0 {
            Seq::empty()
        } else {
            seq![cur]
        }
    } else if s[0] == '\n' {
        seq![strip_cr(cur)] + lines_rec(s.skip(1), Seq::empty())
    } else {
        lines_rec(s.skip(1), cur.push(s[0]))
    }
}

/// The lines of a text.
pub open spec fn spec_lines(s: Seq<char>) -> Seq<Seq<char>> {
    lines_rec(s, Seq::empty())
}

/// Splits text into lines.
pub fn split_lines(s: &str) -> (v: Vec<String>)
    ensures
        v@.map_values(|t: String| t@) == spec_lines(s@),
{
    let n = s.unicode_len();
    let mut v: Vec<String> = Vec::new();
    let mut start: usize = 0;
    let mut i: usize = 0;
    proof {
        assert(s@.skip(0) =~= s@);
        assert(s@.subrange(0, 0) =~= Seq::<char>::empty());
        assert(v@.map_values(|t: String| t@) =~= Seq::<Seq<char>>::empty());
        assert(Seq::<Seq<char>>::empty() + spec_lines(s@) =~= spec_lines(s@));
    }
    while i < n
        invariant
            n == s@.len(),
            start <= i <= n,
            spec_lines(s@) == v@.map_values(|t: String| t@) + lines_rec(
                s@.skip(i as int),
                s@.subrange(start as int, i as int),
            ),
            forall|k: int| start <= k < i ==> s@[k] != '\n',
        decreases n - i,
    {
        let ghost rest = s@.skip(i as int);
        let ghost cur = s@.subrange(start as int, i as int);
        assert(rest[0] == s@[i as int]);
        assert(rest.skip(1) =~= s@.skip(i as int + 1));
        let c = s.get_char(i);
        if c == '\n' {
            let line_end = if i > start && s.get_char(i - 1) == '\r' {
                i - 1
            } else {
                i
            };
            let line = s.substring_char(start, line_end).to_owned();
            proof {
                if i > start && s@[i as int - 1] == '\r' {
                    assert(cur.last() == s@[i as int - 1]);
                    assert(cur.drop_last() =~= s@.subrange(start as int, i as int - 1));
                    assert(line@ == strip_cr(cur));
                } else {
                    assert(line@ == strip_cr(cur));
                }
                assert(v@.push(line).map_values(|t: String| t@) =~= v@.map_values(
                    |t: String| t@,
                ).push(line@));
                assert(v@.map_values(|t: String| t@) + (seq![strip_cr(cur)] + lines_rec(
                    rest.skip(1),
                    Seq::empty(),
                )) =~= v@.map_values(|t: String| t@).push(strip_cr(cur)) + lines_rec(
                    rest.skip(1),
                    Seq::empty(),
                ));
            }
            v.push(line);
            start = i + 1;
            proof {
                assert(s@.subrange(start as int, start as int) =~= Seq::<char>::empty());
            }
        } else {
            proof {
                assert(cur.push(s@[i as int]) =~= s@.subrange(start as int, i as int + 1));
            }
        }
        i += 1;
    }
    proof {
        assert(s@.skip(n as int) =~= Seq::<char>::empty());
    }
    if n > start {
        let line = s.substring_char(start, n).to_owned();
        proof {
            let ghost cur = s@.subrange(start as int, n as int);
            assert(line@ == cur);
            assert(v@.push(line).map_values(|t: String| t@) =~= v@.map_values(
                |t: String| t@,
            ).push(line@));
            assert(v@.map_values(|t: String| t@) + seq![cur] =~= v@.map_values(
                |t: String| t@,
            ).push(cur));
        }
        v.push(line);
    } else {
        proof {
            let ghost cur = s@.subrange(start as int, n as int);
            assert(cur.len() == 0);
            assert(v@.map_values(|t: String| t@) + lines_rec(Seq::<char>::empty(), cur)
                =~= v@.map_values(|t: String| t@));
        }
    }
    v
}

/// Gates a read on the configured size ceiling: too large exactly when the
/// file exceeds the ceiling and no line range narrows the read.
pub fn check_read_size(path: &str, file_size: u64, max_read_size: u64, has_range: bool) -> (r:
    Result<(), FsError>)
    ensures
        r is Err <==> (!has_range && file_size > max_read_size),
        r matches Err(e) ==> {
            &&& e matches FsError::FileTooLarge { path: q, size, max }
            &&& q@ == path@
            &&& size == file_size
            &&& max == max_read_size
        },
{
    if !has_range && file_size > max_read_size {
        Err(FsError::FileTooLarge { path: path.to_owned(), size: file_size, max: max_read_size })
    } else {
        Ok(())
    }
}

/// The header-and-body report for a successful ranged read.
pub open spec fn spec_read_success(
    canonical: Seq<char>,
    bytes: Seq<u8>,
    file_size: int,
    offset: int,
    end: int,
) -> Seq<char> {
    let ls = spec_lines(lossy_decode(bytes));
    ("File: ")@ + canonical + (" (Lines ")@ + dec_rep(offset + 1) + ("-")@ + dec_rep(end) + (
    " of ")@ + dec_rep(ls.len() as int) + (" total, ")@ + spec_format_size(file_size) + (")")@ + (
    "\n\n")@ + join_newline(ls.subrange(offset, end))
}

/// The line index one past the last selected line.
pub open spec fn spec_read_end(total: int, offset: int, limit: Option<u64>) -> int {
    match limit {
        Some(l) => if offset + l < total {
            offset + l
        } else {
            total
        },
        None => total,
    }
}

/// Renders the contents of a file already gated and read, honouring an
/// optional 0-based line offset and line limit.
///
/// Binary content is rejected; an empty file yields a placeholder; an
/// offset beyond the last line is rejected; otherwise the selected lines
/// are returned under a header naming the range.
pub fn read_file_report(
    canonical: &str,
    path: &str,
    content: &Vec<u8>,
    file_size: u64,
    offset: Option<u64>,
    limit: Option<u64>,
) -> (r: Result<String, String>)
    ensures
        has_null_prefix(content@) ==> {
            &&& r matches Err(m)
            &&& m@ == ("Binary file detected: ")@ + path@ + (
            ". Use get_file_info to inspect its metadata.")@
        },
        !has_null_prefix(content@) && spec_lines(lossy_decode(content@)).len() == 0 ==> {
            &&& r matches Ok(s)
            &&& s@ == ("File: ")@ + canonical@ + (" (0 B)\n\n(empty file)")@
        },
        ({
            let total = spec_lines(lossy_decode(content@)).len() as int;
            let off = (match offset {
                Some(o) => o as int,
                None => 0int,
            });
            &&& (!has_null_prefix(content@) && total > 0 && off >= total ==> {
                &&& r matches Err(m)
                &&& m@ == ("Offset ")@ + dec_rep(off) + (" is beyond end of file (")@ + dec_rep(
                    total,
                ) + (" lines)")@
            })
            &&& (!has_null_prefix(content@) && total > 0 && off < total ==> {
                &&& r matches Ok(s)
                &&& s@ == spec_read_success(
                    canonical@,
                    content@,
                    file_size as int,
                    off,
                    spec_read_end(total, off, limit),
                )
            })
        }),
{
    if is_binary(content) {
        let e = FsError::BinaryFile { path: path.to_owned() };
        let m = e.message();
        return Err(m);
    }
    let text = decode_lossy(content);
    let lines = split_lines(text.as_str());
    let total = lines.len();
    if total == 0 {
        let s = String::from_str("File: ").concat(canonical).concat(" (0 B)\n\n(empty file)");
        return Ok(s);
    }
    let off_u64: u64 = match offset {
        Some(o) => o,
        None => 0,
    };
    if off_u64 >= total as u64 {
        let m = String::from_str("Offset ").concat(u64_to_string(off_u64).as_str()).concat(
            " is beyond end of file (",
        ).concat(u64_to_string(total as u64).as_str()).concat(" lines)");
        proof {
            assert(m@ =~= ("Offset ")@ + dec_rep(off_u64 as int) + (
            " is beyond end of file (")@ + dec_rep(total as int) + (" lines)")@);
        }
        return Err(m);
    }
    let off = off_u64 as usize;
    let end: usize = match limit {
        Some(l) => {
            if l < (total - off) as u64 {
                off + (l as usize)
            } else {
                total
            }
        },
        None => total,
    };
    let mut sel: Vec<String> = Vec::new();
    let ghost lview = lines@.map_values(|t: String| t@);
    let mut i: usize = off;
    proof {
        assert(sel@.map_values(|t: String| t@) =~= lview.subrange(off as int, off as int));
    }
    while i < end
        invariant
            off <= i <= end <= lines@.len(),
            lview == lines@.map_values(|t: String| t@),
            sel@.map_values(|t: String| t@) == lview.subrange(off as int, i as int),
        decreases end - i,
    {
        let ghost prev = sel@;
        sel.push(lines[i].clone());
        proof {
            assert(sel@.map_values(|t: String| t@) =~= prev.map_values(|t: String| t@).push(
                lines@[i as int]@,
            ));
            assert(lview.subrange(off as int, i as int).push(lview[i as int]) =~= lview.subrange(
                off as int,
                i as int + 1,
            ));
        }
        i += 1;
    }
    let body = join_lines(&sel);
    let s = String::from_str("File: ").concat(canonical).concat(" (Lines ").concat(
        u64_to_string(off_u64 + 1).as_str(),
    ).concat("-").concat(u64_to_string(end as u64).as_str()).concat(" of ").concat(
        u64_to_string(total as u64).as_str(),
    ).concat(" total, ").concat(format_size(file_size).as_str()).concat(")").concat(
        "\n\n",
    ).concat(body.as_str());
    proof {
        assert(s@ =~= spec_read_success(
            canonical@,
            content@,
            file_size as int,
            off as int,
            end as int,
        ));
    }
    Ok(s)
}

/// The rendered section for one successfully read file in a multi-file
/// read.
pub open spec fn spec_multi_section(
    canonical: Seq<char>,
    bytes: Seq<u8>,
    file_size: int,
) -> Seq<char> {
    ("=== ")@ + canonical + (" (")@ + dec_rep(spec_lines(lossy_decode(bytes)).len() as int) + (
    " lines, ")@ + spec_format_size(file_size) + (") ===\n")@ + lossy_decode(bytes)
}

/// Renders one file's section of a multi-file read: binary content is
/// rejected, otherwise the whole decoded text under a heading.
pub fn multi_read_section(canonical: &str, path: &str, content: &Vec<u8>, file_size: u64) -> (r:
    Result<String, String>)
    ensures
        has_null_prefix(content@) ==> {
            &&& r matches Err(m)
            &&& m@ == ("Binary file detected: ")@ + path@ + (
            ". Use get_file_info to inspect its metadata.")@
        },
        !has_null_prefix(content@) ==> {
            &&& r matches Ok(s)
            &&& s@ == spec_multi_section(canonical@, content@, file_size as int)
        },
{
    if is_binary(content) {
        let e = FsError::BinaryFile { path: path.to_owned() };
        return Err(e.message());
    }
    let text = decode_lossy(content);
    let lines = split_lines(text.as_str());
    let s = String::from_str("=== ").concat(canonical).concat(" (").concat(
        u64_to_string(lines.len() as u64).as_str(),
    ).concat(" lines, ").concat(format_size(file_size).as_str()).concat(") ===\n").concat(
        text.as_str(),
    );
    proof {
        assert(s@ =~= spec_multi_section(canonical@, content@, file_size as int));
    }
    Ok(s)
}

/// The rendered section for a file that failed in a multi-file read.
pub fn error_section(path: &str, err: &str) -> (r: String)
    ensures
        r@ == ("=== ")@ + path@ + (" ===\nError: ")@ + err@,
{
    String::from_str("=== ").concat(path).concat(" ===\nError: ").concat(err)
}

/// Sections joined by blank lines.
pub open spec fn join_sections_spec(sections: Seq<Seq<char>>) -> Seq<char>
    decreases sections.len(),
{
    if sections.len() == 0 {
        Seq::empty()
    } else if sections.len() == 1 {
        sections[0]
    } else {
        join_sections_spec(sections.drop_last()) + ("\n\n")@ + sections.last()
    }
}

/// Joins the per-file sections of a multi-file read with blank lines.
pub fn join_sections(sections: &Vec<String>) -> (r: String)
    ensures
        r@ == join_sections_spec(sections@.map_values(|s: String| s@)),
{
    let ghost viewfn = |s: String| s@;
    let mut r = String::new();
    let mut i: usize = 0;
    proof {
        assert(sections@.subrange(0, 0).map_values(viewfn) =~= Seq::<Seq<char>>::empty());
    }
    while i < sections.len()
        invariant
            i <= sections@.len(),
            viewfn == (|s: String| s@),
            r@ == join_sections_spec(sections@.subrange(0, i as int).map_values(viewfn)),
        decreases sections@.len() - i,
    {
        let ghost before = sections@.subrange(0, i as int).map_values(viewfn);
        if i > 0 {
            r.append("\n\n");
        }
        r.append(sections[i].as_str());
        proof {
            let after = sections@.subrange(0, i as int + 1).map_values(viewfn);
            assert(after.drop_last() =~= before);
            assert(after.last() == sections@[i as int]@);
            assert(r@ =~= join_sections_spec(after));
        }
        i += 1;
    }
    proof {
        assert(sections@.subrange(0, sections@.len() as int) =~= sections@);
    }
    r
}

} // verus!
