//! The `.ax` file parser.
//!
//! A file is a sequence of test blocks, each closed by an `END` line.
//! Inside a block stand, in order: an optional `TEST <name>` line, a
//! request line `<METHOD> <URL>`, header lines, an optional verbatim
//! `BODY` … `BODYEND` region, and `EXPECT` lines. Outside the body region
//! comments run from an unquoted `#` to the end of the line and blank
//! lines are insignificant.
//!
//! `seg_step` is the line classifier that fixes what a block is; the
//! count it reaches over a whole file is what `parse_file` promises to
//! return one test case for.

use vstd::prelude::*;

use crate::assertion::Assertion;
use crate::expr::ParseError;
use crate::expr::parse_assertion_chars;
use crate::http::Body;
use crate::http::HttpRequest;
use crate::http::parse_url;
use crate::lines::rest_of;
use crate::lines::spec_trim;
use crate::lines::split_first_word;
use crate::lines::word_of;
use crate::lines::strip_comment;
use crate::lines::strip_comment_exec;
use crate::lines::trim_exec;
use crate::path::copy_range;
use crate::path::split_at_char;
use crate::path::find_char_from;
use crate::path::first_occurrence;
use crate::path::split_char_exec;
use crate::strutil::chars_eq_str;
use crate::strutil::chars_to_string;
use crate::strutil::str_to_chars;
use crate::test_case::TestCase;
use crate::test_case::wf_parsed;

verus! {

/// The classifier state of the line scan: whether the scan stands in a
/// verbatim body region, the lines of the blocks already closed, the
/// lines of the block still open, and whether the scan is still
/// error-free. Body-region lines are kept verbatim; all others are kept
/// comment-stripped.
pub ghost struct SegState {
    pub in_body: bool,
    pub blocks: Seq<Seq<Seq<char>>>,
    pub cur: Seq<Seq<char>>,
    pub ok: bool,
}

/// The scan starts outside any block.
pub open spec fn seg_init() -> SegState {
    SegState { in_body: false, blocks: Seq::empty(), cur: Seq::empty(), ok: true }
}

/// One line of the scan. In a body region every line belongs to the open
/// block verbatim and only a `BODYEND` line closes the region;
/// elsewhere, after comment stripping and trimming: a blank line is
/// nothing, `END` closes the open block (a stray `END` is an error),
/// `BODY` opens the body region, and any other text belongs to the open
/// block.
pub open spec fn seg_step(st: SegState, l: Seq<char>) -> SegState {
    if !st.ok {
        st
    } else if st.in_body {
        if spec_trim(l) == "BODYEND"@ {
            SegState { in_body: false, cur: st.cur.push(l), ..st }
        } else {
            SegState { cur: st.cur.push(l), ..st }
        }
    } else {
        let t = spec_trim(strip_comment(l));
        if t.len() == 0 {
            st
        } else if t == "END"@ {
            if st.cur.len() > 0 {
                SegState { blocks: st.blocks.push(st.cur), cur: Seq::empty(), ..st }
            } else {
                SegState { ok: false, ..st }
            }
        } else if t == "BODY"@ {
            SegState { in_body: true, cur: st.cur.push(strip_comment(l)), ..st }
        } else {
            SegState { cur: st.cur.push(strip_comment(l)), ..st }
        }
    }
}

/// The scan state after the first `i` lines.
pub open spec fn seg_run(lines: Seq<Seq<char>>, i: int) -> SegState
    decreases i,
{
    if i <= 0 {
        seg_init()
    } else {
        seg_step(seg_run(lines, i - 1), lines[i - 1])
    }
}

/// The blocks of a text: the lines of each `END`-closed test block, in
/// order.
pub open spec fn spec_blocks(text: Seq<char>) -> Seq<Seq<Seq<char>>> {
    let lines = split_at_char(text, '\n');
    seg_run(lines, lines.len() as int).blocks
}

/// The number of test blocks in a text.
pub open spec fn spec_block_count(text: Seq<char>) -> nat {
    spec_blocks(text).len()
}

/// The lines of a text's unclosed trailing block: what the line scan
/// holds open at the end. A well-formed file leaves nothing open.
pub open spec fn spec_open_tail(text: Seq<char>) -> Seq<Seq<char>> {
    let lines = split_at_char(text, '\n');
    seg_run(lines, lines.len() as int).cur
}

/// The views of a sequence of character vectors.
pub open spec fn views_of(lines: Seq<Vec<char>>) -> Seq<Seq<char>> {
    lines.map_values(|l: Vec<char>| l@)
}

/// A line that the scan ignores outside a body region.
pub open spec fn insignificant(l: Seq<char>) -> bool {
    spec_trim(strip_comment(l)).len() == 0
}

/// A text of nothing but blank lines and comments.
pub open spec fn all_insignificant(lines: Seq<Seq<char>>) -> bool {
    forall|k: int| 0 <= k < lines.len() ==> insignificant(#[trigger] lines[k])
}

/// On an all-insignificant prefix the scan stays at its initial state.
proof fn lemma_seg_insignificant(lines: Seq<Seq<char>>, i: int)
    requires
        all_insignificant(lines),
        i <= lines.len(),
    ensures
        seg_run(lines, i) == seg_init(),
    decreases i,
{
    if i > 0 {
        lemma_seg_insignificant(lines, i - 1);
    }
}

/// The lines of one block as stored by the scan: each with its 1-based
/// line number; body-region lines verbatim, the rest comment-stripped.
type StoredLines = Vec<(usize, Vec<char>)>;

/// The contents of stored lines, without their line numbers.
pub open spec fn stored_views(b: Seq<(usize, Vec<char>)>) -> Seq<Seq<char>> {
    b.map_values(|p: (usize, Vec<char>)| p.1@)
}

/// The contents of a sequence of stored blocks.
pub open spec fn blocks_views(bs: Seq<Vec<(usize, Vec<char>)>>) -> Seq<Seq<Seq<char>>> {
    bs.map_values(|b: Vec<(usize, Vec<char>)>| stored_views(b@))
}

/// Splits lines into END-closed blocks, following `seg_step` exactly.
/// Returns the closed blocks, the still-open trailing lines (callers
/// that demand a closed file reject a non-empty tail), and whether the
/// scan ended inside a body region.
fn segment_lines(lines: &Vec<Vec<char>>) -> (r: Result<
    (Vec<StoredLines>, StoredLines, bool),
    ParseError,
>)
    ensures
        ({
            let glines = views_of(lines@);
            let fin = seg_run(glines, glines.len() as int);
            match r {
                Ok((blocks, tail, inb)) => {
                    &&& fin.ok
                    &&& blocks_views(blocks@) == fin.blocks
                    &&& stored_views(tail@) == fin.cur
                    &&& inb == fin.in_body
                },
                Err(_) => !fin.ok,
            }
        }),
        all_insignificant(views_of(lines@)) ==> (r matches Ok(
            (blocks, tail, inb),
        ) && blocks@.len() == 0 && tail@.len() == 0 && !inb),
{
    let ghost glines = views_of(lines@);
    let mut blocks: Vec<StoredLines> = Vec::new();
    let mut cur: StoredLines = Vec::new();
    let mut in_body = false;
    let mut i: usize = 0;
    proof {
        assert(blocks_views(blocks@) =~= Seq::<Seq<Seq<char>>>::empty());
        assert(stored_views(cur@) =~= Seq::<Seq<char>>::empty());
    }
    while i < lines.len()
        invariant
            i <= lines@.len(),
            glines == views_of(lines@),
            seg_run(glines, i as int) == (SegState {
                in_body,
                blocks: blocks_views(blocks@),
                cur: stored_views(cur@),
                ok: true,
            }),
            in_body ==> cur@.len() > 0,
        decreases lines@.len() - i,
    {
        let ghost pre = seg_run(glines, i as int);
        proof {
            assert(glines[i as int] == lines@[i as int]@);
            assert(seg_run(glines, i + 1) == seg_step(pre, glines[i as int]));
        }
        let ghost pre_cur = cur@;
        let ghost pre_blocks = blocks@;
        let line_no = i + 1;
        let raw = &lines[i];
        if in_body {
            let t = trim_exec(raw);
            if chars_eq_str(&t, "BODYEND") {
                in_body = false;
            }
            let copied = copy_range(raw, 0, raw.len());
            proof {
                assert(copied@ =~= raw@);
            }
            cur.push((line_no, copied));
        } else {
            let stripped = strip_comment_exec(raw);
            let t = trim_exec(&stripped);
            if t.len() == 0 {
                // blank or comment-only: nothing
            } else if chars_eq_str(&t, "END") {
                if cur.len() > 0 {
                    blocks.push(cur);
                    cur = Vec::new();
                } else {
                    proof {
                        if all_insignificant(glines) {
                            reveal_strlit("END");
                            assert(insignificant(glines[i as int]));
                        }
                        assert(!seg_run(glines, i + 1).ok);
                        lemma_seg_ok_monotone(glines, i + 1, glines.len() as int);
                    }
                    return Err(ParseError::Syntax {
                        line: line_no,
                        col: 1,
                        expected: String::from_str("a test block before END"),
                    });
                }
            } else if chars_eq_str(&t, "BODY") {
                in_body = true;
                cur.push((line_no, stripped));
            } else {
                cur.push((line_no, stripped));
            }
        }
        proof {
            let post = seg_step(pre, glines[i as int]);
            assert(post.ok);
            assert(post.in_body == in_body);
            if cur@.len() > pre_cur.len() {
                let p = cur@.last();
                assert(stored_views(cur@) =~= stored_views(pre_cur).push(p.1@));
            }
            if blocks@.len() > pre_blocks.len() {
                assert(blocks_views(blocks@) =~= blocks_views(pre_blocks).push(
                    stored_views(pre_cur),
                ));
                assert(stored_views(cur@) =~= Seq::<Seq<char>>::empty());
            }
            assert(post.blocks == blocks_views(blocks@));
            assert(post.cur == stored_views(cur@));
            assert(seg_run(glines, i + 1) == post);
        }
        i = i + 1;
    }
    proof {
        if all_insignificant(glines) {
            lemma_seg_insignificant(glines, glines.len() as int);
            assert(blocks_views(blocks@).len() == 0);
            assert(stored_views(cur@).len() == 0);
        }
    }
    Ok((blocks, cur, in_body))
}

/// Whether a character is an ASCII letter.
pub open spec fn is_letter(c: char) -> bool {
    ('a' <= c && c <= 'z') || ('A' <= c && c <= 'Z')
}

/// Whether every character is an ASCII letter: the shape of a method
/// verb.
fn is_letters(l: &Vec<char>) -> (r: bool)
    ensures
        r == forall|k: int| 0 <= k < l@.len() ==> is_letter(#[trigger] l@[k]),
{
    let mut k: usize = 0;
    let n = l.len();
    while k < n
        invariant
            k <= n,
            n == l@.len(),
            forall|j: int| 0 <= j < k ==> is_letter(#[trigger] l@[j]),
        decreases n - k,
    {
        let c = l[k];
        if !(('a' <= c && c <= 'z') || ('A' <= c && c <= 'Z')) {
            return false;
        }
        k = k + 1;
    }
    true
}

/// Lines joined by line feeds: the verbatim text of a body region.
pub open spec fn join_nl(ls: Seq<Seq<char>>) -> Seq<char>
    decreases ls.len(),
{
    if ls.len() == 0 {
        Seq::empty()
    } else if ls.len() == 1 {
        ls[0]
    } else {
        join_nl(ls.drop_last()).push('\n') + ls.last()
    }
}

/// Joins the contents of stored lines with line feeds, per `join_nl`:
/// the verbatim body text between `BODY` and `BODYEND`.
fn join_lines(block: &StoredLines, from: usize, to: usize) -> (r: Vec<char>)
    requires
        from <= to <= block@.len(),
    ensures
        r@ == join_nl(stored_views(block@).subrange(from as int, to as int)),
{
    let ghost all = stored_views(block@);
    let mut out: Vec<char> = Vec::new();
    let mut i: usize = from;
    proof {
        assert(all.subrange(from as int, from as int).len() == 0);
    }
    while i < to
        invariant
            from <= i <= to <= block@.len(),
            all == stored_views(block@),
            out@ == join_nl(all.subrange(from as int, i as int)),
        decreases to - i,
    {
        proof {
            assert(all.subrange(from as int, i + 1).drop_last() =~= all.subrange(
                from as int,
                i as int,
            ));
            assert(all.subrange(from as int, i + 1).last() == all[i as int]);
            assert(all[i as int] == block@[i as int].1@);
        }
        if i > from {
            out.push('\n');
        }
        let ghost mid = out@;
        let line = &block[i].1;
        let mut k: usize = 0;
        let n = line.len();
        while k < n
            invariant
                k <= n,
                n == line@.len(),
                out@ == mid + line@.take(k as int),
            decreases n - k,
        {
            out.push(line[k]);
            assert(out@ =~= mid + line@.take(k + 1));
            k = k + 1;
        }
        proof {
            assert(line@.take(n as int) =~= line@);
            assert(out@ =~= join_nl(all.subrange(from as int, i + 1)));
        }
        i = i + 1;
    }
    out
}

/// Where the header section ends: the first line at or after `i` that
/// begins an `EXPECT` clause or opens the body region, or the end of the
/// block.
pub open spec fn hdr_end(bl: Seq<Seq<char>>, i: int) -> int
    decreases bl.len() - i,
{
    if i < 0 || i >= bl.len() {
        bl.len() as int
    } else if word_of(spec_trim(bl[i])) == "EXPECT"@ || spec_trim(bl[i]) == "BODY"@ {
        i
    } else {
        hdr_end(bl, i + 1)
    }
}

/// The first line at or after `i` whose trimmed content is `BODYEND`, or
/// the end of the block when there is none.
pub open spec fn bodyend_at(bl: Seq<Seq<char>>, i: int) -> int
    decreases bl.len() - i,
{
    if i < 0 || i >= bl.len() {
        bl.len() as int
    } else if spec_trim(bl[i]) == "BODYEND"@ {
        i
    } else {
        bodyend_at(bl, i + 1)
    }
}

/// Where the request portion of a block ends: past the body region when
/// the header section is followed by a `BODY` line, and at the header
/// section's end otherwise.
pub open spec fn portion_next(bl: Seq<Seq<char>>, start: int) -> int {
    let he = hdr_end(bl, start + 1);
    if he < bl.len() && spec_trim(bl[he]) == "BODY"@ {
        bodyend_at(bl, he + 1) + 1
    } else {
        he
    }
}

/// The name a header line carries: the text before its first colon,
/// trimmed.
pub open spec fn header_key(line: Seq<char>) -> Seq<char> {
    spec_trim(spec_trim(line).take(first_occurrence(spec_trim(line), ':')))
}

/// The value a header line carries: the text after its first colon,
/// trimmed.
pub open spec fn header_val(line: Seq<char>) -> Seq<char> {
    spec_trim(spec_trim(line).skip(first_occurrence(spec_trim(line), ':') + 1))
}

/// The first position at or after `i` holding a given header name.
pub open spec fn key_index_from(
    hs: Seq<(Seq<char>, Seq<char>)>,
    k: Seq<char>,
    i: int,
) -> int
    decreases hs.len() - i,
{
    if i < 0 || i >= hs.len() {
        -1
    } else if hs[i].0 == k {
        i
    } else {
        key_index_from(hs, k, i + 1)
    }
}

proof fn lemma_key_index(hs: Seq<(Seq<char>, Seq<char>)>, k: Seq<char>)
    ensures
        -1 <= key_index_from(hs, k, 0) < hs.len(),
        key_index_from(hs, k, 0) >= 0 ==> hs[key_index_from(hs, k, 0)].0 == k,
        forall|j: int| 0 <= j < hs.len() && j < key_index_from(hs, k, 0) ==> (
        #[trigger] hs[j]).0 != k,
        key_index_from(hs, k, 0) == -1 ==> forall|j: int|
            0 <= j < hs.len() ==> (#[trigger] hs[j]).0 != k,
{
    lemma_key_index_from(hs, k, 0);
}

proof fn lemma_key_index_from(hs: Seq<(Seq<char>, Seq<char>)>, k: Seq<char>, i: int)
    requires
        0 <= i <= hs.len(),
    ensures
        key_index_from(hs, k, i) == -1 || i <= key_index_from(hs, k, i) < hs.len(),
        key_index_from(hs, k, i) >= 0 ==> hs[key_index_from(hs, k, i)].0 == k,
        forall|j: int| i <= j < hs.len() && j < key_index_from(hs, k, i) ==> (
        #[trigger] hs[j]).0 != k,
        key_index_from(hs, k, i) == -1 ==> forall|j: int|
            i <= j < hs.len() ==> (#[trigger] hs[j]).0 != k,
    decreases hs.len() - i,
{
    if i < hs.len() && hs[i].0 != k {
        lemma_key_index_from(hs, k, i + 1);
    }
}

/// One header entering the map kept as pairs: a present name keeps its
/// place and spelling and takes the new value — the last one wins — and
/// a fresh name is appended.
pub open spec fn upsert_header(
    hs: Seq<(Seq<char>, Seq<char>)>,
    k: Seq<char>,
    v: Seq<char>,
) -> Seq<(Seq<char>, Seq<char>)> {
    let i = key_index_from(hs, k, 0);
    if i >= 0 {
        hs.update(i, (hs[i].0, v))
    } else {
        hs.push((k, v))
    }
}

/// The header pairs the lines from `i` up to `he` fold into `acc`.
pub open spec fn headers_fold(
    bl: Seq<Seq<char>>,
    i: int,
    he: int,
    acc: Seq<(Seq<char>, Seq<char>)>,
) -> Seq<(Seq<char>, Seq<char>)>
    decreases he - i,
{
    if i < he {
        headers_fold(bl, i + 1, he, upsert_header(acc, header_key(bl[i]), header_val(bl[i])))
    } else {
        acc
    }
}

/// Folding one more line folds onto the result so far.
proof fn lemma_headers_fold_snoc(
    bl: Seq<Seq<char>>,
    i: int,
    j: int,
    acc: Seq<(Seq<char>, Seq<char>)>,
)
    requires
        i <= j,
    ensures
        headers_fold(bl, i, j + 1, acc) == upsert_header(
            headers_fold(bl, i, j, acc),
            header_key(bl[j]),
            header_val(bl[j]),
        ),
    decreases j - i,
{
    if i < j {
        lemma_headers_fold_snoc(bl, i + 1, j, upsert_header(acc, header_key(bl[i]), header_val(bl[i])));
    } else {
        assert(headers_fold(bl, j + 1, j + 1, upsert_header(acc, header_key(bl[j]), header_val(bl[j])))
            == upsert_header(acc, header_key(bl[j]), header_val(bl[j])));
    }
}

/// The views of header pairs.
pub open spec fn header_views(hs: Seq<(String, String)>) -> Seq<(Seq<char>, Seq<char>)> {
    hs.map_values(|p: (String, String)| (p.0@, p.1@))
}

/// Puts one header into the list, per `upsert_header`: the last value
/// for a name wins, and the name keeps its first spelling and place.
fn upsert_header_exec(headers: &mut Vec<(String, String)>, key: String, value: String)
    ensures
        header_views(final(headers)@) == upsert_header(
            header_views(old(headers)@),
            key@,
            value@,
        ),
{
    let ghost ghdrs = header_views(headers@);
    let mut i: usize = 0;
    while i < headers.len()
        invariant
            i <= headers@.len(),
            headers@ == old(headers)@,
            ghdrs == header_views(headers@),
            ghdrs.len() == headers@.len(),
            forall|j: int| 0 <= j < i ==> (#[trigger] ghdrs[j]).0 != key@,
        decreases headers@.len() - i,
    {
        proof {
            assert(ghdrs[i as int] == (headers@[i as int].0@, headers@[i as int].1@));
        }
        if crate::strutil::str_eq_str(headers[i].0.as_str(), key.as_str()) {
            proof {
                lemma_key_index(ghdrs, key@);
                assert(key_index_from(ghdrs, key@, 0) == i) by {
                    if key_index_from(ghdrs, key@, 0) < i {
                        if key_index_from(ghdrs, key@, 0) >= 0 {
                            assert(ghdrs[key_index_from(ghdrs, key@, 0)].0 == key@);
                        }
                    } else if key_index_from(ghdrs, key@, 0) > i {
                        assert(ghdrs[i as int].0 != key@);
                    }
                }
            }
            let pair = headers.remove(i);
            headers.insert(i, (pair.0, value));
            proof {
                assert(header_views(headers@) =~= upsert_header(ghdrs, key@, value@));
            }
            return ;
        }
        i = i + 1;
    }
    proof {
        lemma_key_index(ghdrs, key@);
        assert(key_index_from(ghdrs, key@, 0) == -1) by {
            if key_index_from(ghdrs, key@, 0) >= 0 {
                assert(ghdrs[key_index_from(ghdrs, key@, 0)].0 == key@);
            }
        }
    }
    headers.push((key, value));
    proof {
        assert(header_views(headers@) =~= upsert_header(ghdrs, key@, value@));
    }
}

/// How a request relates to a block's lines from `start` on: its method
/// and URL come from the request line, one header pair per line of the
/// header section, and its body is the verbatim region between a `BODY`
/// line and its `BODYEND` when the block has one.
pub open spec fn request_portion_shape(bl: Seq<Seq<char>>, start: int, req: HttpRequest) -> bool {
    let hs = start + 1;
    let he = hdr_end(bl, hs);
    &&& 0 <= start < bl.len()
    &&& request_line_shape(spec_trim(bl[start]), req)
    &&& header_views(req.headers@) == headers_fold(bl, hs, he, Seq::empty())
    &&& if he < bl.len() && spec_trim(bl[he]) == "BODY"@ {
        let be = bodyend_at(bl, he + 1);
        &&& be < bl.len()
        &&& (req.body matches Some(Body::Text(t)) && t@ == join_nl(bl.subrange(he + 1, be)))
    } else {
        req.body is None
    }
}

/// A well-formed request line: a first word of ASCII letters, and a
/// rest that parses as an absolute URI.
pub open spec fn request_line_wf(line: Seq<char>) -> bool {
    let t = spec_trim(line);
    &&& word_of(t).len() > 0
    &&& (forall|k: int| 0 <= k < word_of(t).len() ==> is_letter(#[trigger] word_of(t)[k]))
    &&& rest_of(t).len() > 0
    &&& crate::http::url_parse(rest_of(t)) is Some
}

/// A well-formed `EXPECT` line: the keyword, then an expression that
/// tokenizes to a well-formed shape.
pub open spec fn expect_line_wf(line: Seq<char>) -> bool {
    &&& word_of(spec_trim(line)) == "EXPECT"@
    &&& (crate::expr::spec_tokens(rest_of(spec_trim(line))) matches Some(ts)
        && crate::expr::expr_wf(ts))
}

/// An assertion denoting exactly what an `EXPECT` line's expression
/// tokens spell: variant, operator and values included.
pub open spec fn expect_line_matches(line: Seq<char>, a: Assertion) -> bool {
    crate::expr::spec_tokens(rest_of(spec_trim(line))) matches Some(ts)
        && crate::expr::expr_matches(ts, a)
}

/// A well-formed request portion from `start`: a request line, header
/// lines each with a colon, and a closed body region where one opens.
pub open spec fn portion_wf(bl: Seq<Seq<char>>, start: int) -> bool {
    let hs = start + 1;
    let he = hdr_end(bl, hs);
    &&& 0 <= start < bl.len()
    &&& request_line_wf(bl[start])
    &&& (forall|j: int|
        hs <= j < he ==> first_occurrence(spec_trim(#[trigger] bl[j]), ':') >= 0)
    &&& (he < bl.len() && spec_trim(bl[he]) == "BODY"@ ==> bodyend_at(bl, he + 1) < bl.len())
}

/// A request line whose method and URL text are shaped but whose URL
/// does not parse: the one way a request line fails as `InvalidUrl`.
pub open spec fn bad_url_at(bl: Seq<Seq<char>>, start: int) -> bool {
    let t = spec_trim(bl[start]);
    &&& 0 <= start < bl.len()
    &&& word_of(t).len() > 0
    &&& (forall|k: int| 0 <= k < word_of(t).len() ==> is_letter(#[trigger] word_of(t)[k]))
    &&& rest_of(t).len() > 0
    &&& crate::http::url_parse(rest_of(t)) is None
}

/// Where a block's request portion starts: after the `TEST` line when
/// the block has one.
pub open spec fn block_rs(bl: Seq<Seq<char>>) -> int {
    if bl.len() > 0 && word_of(spec_trim(bl[0])) == "TEST"@ {
        1
    } else {
        0
    }
}

/// A well-formed test block: an optional `TEST` line, a well-formed
/// request portion, and `EXPECT` lines for everything after it.
pub open spec fn block_wf(bl: Seq<Seq<char>>) -> bool {
    let rs = block_rs(bl);
    let next = portion_next(bl, rs);
    &&& bl.len() > 0
    &&& portion_wf(bl, rs)
    &&& forall|k: int| next <= k < bl.len() ==> expect_line_wf(#[trigger] bl[k])
}

/// A text whose line scan finishes cleanly: no stray `END`, no open
/// block, no open body region.
pub open spec fn spec_scan_clean(text: Seq<char>) -> bool {
    let lines = split_at_char(text, '\n');
    let fin = seg_run(lines, lines.len() as int);
    &&& fin.ok
    &&& fin.cur.len() == 0
    &&& !fin.in_body
}

/// A well-formed `.ax` file: a clean line scan and well-formed blocks
/// throughout. Parsing is owed success exactly here.
pub open spec fn file_wf(text: Seq<char>) -> bool {
    &&& spec_scan_clean(text)
    &&& forall|k: int|
        0 <= k < spec_blocks(text).len() ==> block_wf(#[trigger] spec_blocks(text)[k])
}

/// A failed scan never recovers: once the scan has erred it stays
/// erred.
proof fn lemma_seg_ok_monotone(lines: Seq<Seq<char>>, i: int, j: int)
    requires
        i <= j,
        !seg_run(lines, i).ok,
    ensures
        !seg_run(lines, j).ok,
    decreases j - i,
{
    if i < j {
        lemma_seg_ok_monotone(lines, i, j - 1);
    }
}

/// The index where the header section ends, per `hdr_end`.
fn find_hdr_end(block: &StoredLines, from: usize) -> (he: usize)
    requires
        from <= block@.len(),
    ensures
        from <= he <= block@.len(),
        he as int == hdr_end(stored_views(block@), from as int),
{
    let ghost bl = stored_views(block@);
    let mut i: usize = from;
    while i < block.len()
        invariant
            from <= i <= bl.len(),
            bl == stored_views(block@),
            bl.len() == block@.len(),
            hdr_end(bl, from as int) == hdr_end(bl, i as int),
        decreases bl.len() - i,
    {
        proof {
            assert(bl[i as int] == block@[i as int].1@);
        }
        let t = trim_exec(&block[i].1);
        let (w, _) = split_first_word(&t);
        if chars_eq_str(&w, "EXPECT") || chars_eq_str(&t, "BODY") {
            return i;
        }
        i = i + 1;
    }
    i
}

/// The index of the first `BODYEND` line at or after `from`, or the
/// block's end, per `bodyend_at`.
fn find_bodyend(block: &StoredLines, from: usize) -> (b: usize)
    requires
        from <= block@.len(),
    ensures
        from <= b <= block@.len(),
        b as int == bodyend_at(stored_views(block@), from as int),
{
    let ghost bl = stored_views(block@);
    let mut i: usize = from;
    while i < block.len()
        invariant
            from <= i <= bl.len(),
            bl == stored_views(block@),
            bl.len() == block@.len(),
            bodyend_at(bl, from as int) == bodyend_at(bl, i as int),
        decreases bl.len() - i,
    {
        proof {
            assert(bl[i as int] == block@[i as int].1@);
        }
        let bt = trim_exec(&block[i].1);
        if chars_eq_str(&bt, "BODYEND") {
            return i;
        }
        i = i + 1;
    }
    i
}

/// How a request relates to its request line: the method is the line's
/// first word as written, and the URL is the normal form that the rest
/// of the line parses to.
pub open spec fn request_line_shape(l: Seq<char>, req: HttpRequest) -> bool {
    &&& req.method@ == word_of(l)
    &&& crate::http::url_parse(rest_of(l)) == Some(req.url@)
}

/// How a parsed case relates to its block's lines: a block whose first
/// line starts with the word `TEST` names the case with the rest of that
/// line; the request portion — request line, headers, optional body —
/// follows, per `request_portion_shape`; and every line after it is one
/// `EXPECT` clause, one assertion each.
pub open spec fn block_shape(bl: Seq<Seq<char>>, tc: TestCase) -> bool {
    let rs: int = if word_of(spec_trim(bl[0])) == "TEST"@ {
        1
    } else {
        0
    };
    let next = portion_next(bl, rs);
    &&& bl.len() > 0
    &&& if rs == 1 {
        tc.name matches Some(n) && n@ == rest_of(spec_trim(bl[0]))
    } else {
        tc.name is None
    }
    &&& request_portion_shape(bl, rs, tc.request)
    &&& tc.assertions@.len() == bl.len() - next
    &&& (forall|k: int|
        next <= k < bl.len() ==> word_of(spec_trim(#[trigger] bl[k])) == "EXPECT"@)
    &&& forall|k: int|
        0 <= k < tc.assertions@.len() ==> expect_line_matches(
            bl[next + k],
            #[trigger] tc.assertions@[k],
        )
}

/// Parses the request portion of a block from `start`: the
/// `<METHOD> <URL>` line, then headers, then an optional verbatim body.
/// Returns the request and the index of the first unconsumed line.
fn parse_request_portion(block: &StoredLines, start: usize, block_index: usize) -> (r: Result<
    (HttpRequest, usize),
    ParseError,
>)
    ensures
        r matches Ok(p) ==> {
            &&& crate::http::valid_url(p.0.url@)
            &&& request_portion_shape(stored_views(block@), start as int, p.0)
            &&& p.1 == portion_next(stored_views(block@), start as int)
            &&& start < block@.len()
            &&& start <= p.1 <= block@.len()
        },
        portion_wf(stored_views(block@), start as int) ==> r is Ok,
        start >= block@.len() ==> (r matches Err(e) && e is MissingRequest),
        bad_url_at(stored_views(block@), start as int) ==> (r matches Err(e) && e is InvalidUrl),
{
    let ghost bl = stored_views(block@);
    if start >= block.len() {
        return Err(ParseError::MissingRequest { block_index });
    }
    let req_line_no = block[start].0;
    let trimmed = trim_exec(&block[start].1);
    proof {
        assert(bl[start as int] == block@[start as int].1@);
    }
    let (method_chars, url_chars) = split_first_word(&trimmed);
    if method_chars.len() == 0 || !is_letters(&method_chars) {
        return Err(ParseError::Syntax {
            line: req_line_no,
            col: 1,
            expected: String::from_str("request method"),
        });
    }
    if url_chars.len() == 0 {
        return Err(ParseError::Syntax {
            line: req_line_no,
            col: 1,
            expected: String::from_str("request URL"),
        });
    }
    let url_text = chars_to_string(&url_chars);
    let url = match parse_url(url_text.as_str()) {
        Some(u) => u,
        None => {
            return Err(ParseError::InvalidUrl { url: url_text });
        },
    };
    let method = chars_to_string(&method_chars);
    let hs = start + 1;
    let he = find_hdr_end(block, hs);
    let mut headers: Vec<(String, String)> = Vec::new();
    let mut idx = hs;
    proof {
        assert(header_views(headers@) =~= Seq::<(Seq<char>, Seq<char>)>::empty());
    }
    while idx < he
        invariant
            hs == start + 1,
            hs <= idx <= he <= bl.len(),
            bl == stored_views(block@),
            bl.len() == block@.len(),
            he as int == hdr_end(bl, hs as int),
            header_views(headers@) == headers_fold(bl, hs as int, idx as int, Seq::empty()),
            crate::http::url_parse(rest_of(spec_trim(bl[start as int]))) == Some(url@),
        decreases he - idx,
    {
        let line_no = block[idx].0;
        proof {
            assert(bl[idx as int] == block@[idx as int].1@);
        }
        let t = trim_exec(&block[idx].1);
        match find_char_from(&t, 0, ':') {
            Some(ci) => {
                proof {
                    crate::path::lemma_first_occurrence(t@, ':');
                    assert(ci as int == first_occurrence(t@, ':')) by {
                        if first_occurrence(t@, ':') < ci {
                            assert(t@[first_occurrence(t@, ':')] != ':');
                        } else if first_occurrence(t@, ':') > ci {
                            assert(t@[ci as int] != ':');
                        }
                    }
                }
                let tn = t.len();
                let key = trim_exec(&copy_range(&t, 0, ci));
                let value = trim_exec(&copy_range(&t, ci + 1, tn));
                proof {
                    assert(t@.subrange(0, ci as int) =~= t@.take(ci as int));
                    assert(t@.subrange(ci + 1, t@.len() as int) =~= t@.skip(ci + 1));
                    assert(key@ == header_key(bl[idx as int]));
                    assert(value@ == header_val(bl[idx as int]));
                    lemma_headers_fold_snoc(bl, hs as int, idx as int, Seq::empty());
                }
                upsert_header_exec(&mut headers, chars_to_string(&key), chars_to_string(&value));
                idx = idx + 1;
            },
            None => {
                proof {
                    crate::path::lemma_first_occurrence(t@, ':');
                    if first_occurrence(t@, ':') >= 0 {
                        assert(t@[first_occurrence(t@, ':')] == ':');
                    }
                }
                return Err(ParseError::Syntax {
                    line: line_no,
                    col: 1,
                    expected: String::from_str("header, BODY or EXPECT"),
                });
            },
        }
    }
    let (body, next) = if he < block.len() {
        proof {
            assert(bl[he as int] == block@[he as int].1@);
        }
        let t = trim_exec(&block[he].1);
        if chars_eq_str(&t, "BODY") {
            let line_no = block[he].0;
            let bend = find_bodyend(block, he + 1);
            if bend == block.len() {
                return Err(ParseError::Syntax {
                    line: line_no,
                    col: 1,
                    expected: String::from_str("BODYEND"),
                });
            }
            let text = join_lines(block, he + 1, bend);
            (Some(Body::Text(chars_to_string(&text))), bend + 1)
        } else {
            (None, he)
        }
    } else {
        (None, he)
    };
    Ok((HttpRequest { method, url, headers, body }, next))
}

/// Parses one stored block into a test case: an optional `TEST` name
/// line, the request portion, then `EXPECT` lines.
fn parse_block_lines(block: &StoredLines, block_index: usize) -> (r: Result<TestCase, ParseError>)
    ensures
        r matches Ok(tc) ==> wf_parsed(tc) && block_shape(stored_views(block@), tc),
        block_wf(stored_views(block@)) ==> r is Ok,
        block@.len() == 0 || block_rs(stored_views(block@)) >= block@.len() ==> (r matches Err(e)
            && e is MissingRequest),
        block@.len() > 0 && bad_url_at(stored_views(block@), block_rs(stored_views(block@)))
            ==> (r matches Err(e) && e is InvalidUrl),
{
    if block.len() == 0 {
        return Err(ParseError::MissingRequest { block_index });
    }
    let mut start: usize = 0;
    let mut name: Option<String> = None;
    let t0 = trim_exec(&block[0].1);
    proof {
        assert(stored_views(block@)[0] == block@[0].1@);
    }
    let (w0, rest0) = split_first_word(&t0);
    if chars_eq_str(&w0, "TEST") {
        name = Some(chars_to_string(&rest0));
        start = 1;
    }
    proof {
        assert(start as int == block_rs(stored_views(block@)));
    }
    let (request, mut idx) = match parse_request_portion(block, start, block_index) {
        Ok(p) => p,
        Err(e) => {
            return Err(e);
        },
    };
    let ghost bl = stored_views(block@);
    let ghost next0 = idx as int;
    let mut assertions: Vec<Assertion> = Vec::new();
    while idx < block.len()
        invariant
            next0 <= idx <= block@.len(),
            bl == stored_views(block@),
            bl.len() == block@.len(),
            next0 == portion_next(bl, block_rs(bl)),
            !bad_url_at(bl, block_rs(bl)),
            assertions@.len() == idx - next0,
            forall|k: int|
                0 <= k < assertions@.len() ==> crate::assertion::wf_assertion(
                    #[trigger] assertions@[k],
                ),
            forall|k: int|
                next0 <= k < idx ==> word_of(spec_trim(#[trigger] bl[k])) == "EXPECT"@,
            forall|k: int|
                0 <= k < assertions@.len() ==> expect_line_matches(
                    bl[next0 + k],
                    #[trigger] assertions@[k],
                ),
        decreases block@.len() - idx,
    {
        let line_no = block[idx].0;
        proof {
            assert(bl[idx as int] == block@[idx as int].1@);
        }
        let t = trim_exec(&block[idx].1);
        let (w, rest) = split_first_word(&t);
        if chars_eq_str(&w, "EXPECT") {
            proof {
                assert(rest@ == rest_of(spec_trim(bl[idx as int])));
            }
            match parse_assertion_chars(&rest, line_no) {
                Ok(a) => {
                    proof {
                        assert(expect_line_matches(bl[idx as int], a));
                    }
                    assertions.push(a);
                },
                Err(e) => {
                    proof {
                        if block_wf(bl) {
                            assert(expect_line_wf(bl[idx as int]));
                        }
                    }
                    return Err(e);
                },
            }
            idx = idx + 1;
        } else {
            proof {
                if block_wf(bl) {
                    assert(expect_line_wf(bl[idx as int]));
                }
            }
            return Err(ParseError::Syntax {
                line: line_no,
                col: 1,
                expected: String::from_str("EXPECT"),
            });
        }
    }
    Ok(TestCase { name, request, response: None, assertions, result: None })
}

/// The `.ax` parser.
pub struct AxParser;

impl AxParser {
    /// Parses a whole `.ax` file into its test cases, in source order.
    ///
    /// On success there is exactly one case per test block of the text —
    /// `spec_block_count` counts them — and every case is well formed
    /// (no response or result yet, a request with a parseable URL,
    /// well-formed assertions) and shaped by its block's lines: its name
    /// from the block's `TEST` line and its method and URL from the
    /// request line. A text of only blank lines and comments parses to
    /// no cases. Any error aborts the whole parse.
    pub fn parse_file(file: &String) -> (r: Result<Vec<TestCase>, ParseError>)
        ensures
            r matches Ok(cases) ==> {
                &&& spec_scan_clean(file@)
                &&& cases@.len() == spec_block_count(file@)
                &&& forall|k: int|
                    0 <= k < cases@.len() ==> wf_parsed(#[trigger] cases@[k]) && block_shape(
                        spec_blocks(file@)[k],
                        cases@[k],
                    )
            },
            all_insignificant(split_at_char(file@, '\n')) ==> (r matches Ok(cases)
                && cases@.len() == 0),
            file_wf(file@) ==> r is Ok,
            forall|k: int|
                {
                    &&& spec_scan_clean(file@)
                    &&& 0 <= k < spec_blocks(file@).len()
                    &&& (forall|j: int| 0 <= j < k ==> block_wf(#[trigger] spec_blocks(file@)[j]))
                    &&& bad_url_at(spec_blocks(file@)[k], block_rs(spec_blocks(file@)[k]))
                } ==> (r matches Err(e) && e is InvalidUrl),
    {
        let chars = str_to_chars(file.as_str());
        let lines = split_char_exec(&chars, '\n');
        let last_line = lines.len();
        let (blocks, tail, in_body) = match segment_lines(&lines) {
            Ok(x) => x,
            Err(e) => {
                proof {
                    if all_insignificant(split_at_char(file@, '\n')) {
                        assert(views_of(lines@) =~= split_at_char(file@, '\n'));
                        assert(all_insignificant(views_of(lines@)));
                    }
                }
                return Err(e);
            },
        };
        proof {
            assert(views_of(lines@) =~= split_at_char(file@, '\n'));
        }
        if in_body {
            return Err(ParseError::Syntax {
                line: last_line,
                col: 1,
                expected: String::from_str("BODYEND"),
            });
        }
        if tail.len() > 0 {
            return Err(ParseError::Syntax {
                line: last_line,
                col: 1,
                expected: String::from_str("END"),
            });
        }
        let mut cases: Vec<TestCase> = Vec::new();
        let mut bi: usize = 0;
        while bi < blocks.len()
            invariant
                bi <= blocks@.len(),
                cases@.len() == bi,
                blocks_views(blocks@) == spec_blocks(file@),
                forall|k: int|
                    0 <= k < cases@.len() ==> wf_parsed(#[trigger] cases@[k]) && block_shape(
                        spec_blocks(file@)[k],
                        cases@[k],
                    ),
                all_insignificant(split_at_char(file@, '\n')) ==> blocks@.len() == 0,
                forall|k: int|
                    {
                        &&& 0 <= k < spec_blocks(file@).len()
                        &&& (forall|j: int|
                            0 <= j < k ==> block_wf(#[trigger] spec_blocks(file@)[j]))
                        &&& bad_url_at(
                            spec_blocks(file@)[k],
                            block_rs(#[trigger] spec_blocks(file@)[k]),
                        )
                    } ==> bi <= k,
            decreases blocks@.len() - bi,
        {
            proof {
                assert(spec_blocks(file@)[bi as int] == stored_views(blocks@[bi as int]@));
            }
            match parse_block_lines(&blocks[bi], bi) {
                Ok(tc) => {
                    cases.push(tc);
                },
                Err(e) => {
                    proof {
                        // a well-formed block cannot fail, so the first
                        // bad-URL block, if that is what this is, is
                        // this very one
                        if file_wf(file@) {
                            assert(block_wf(spec_blocks(file@)[bi as int]));
                        }
                    }
                    return Err(e);
                },
            }
            bi = bi + 1;
        }
        Ok(cases)
    }
}

/// Parses one test block given as its own text (ending in `END`): the
/// text must hold exactly one block, and the case is shaped by its
/// lines. A clean one-block text with a well-formed block is owed
/// success; one whose block lacks a request line fails as
/// `MissingRequest`, and one whose request URL does not parse fails as
/// `InvalidUrl`.
pub fn parse_test_block(input: &str) -> (r: Result<TestCase, ParseError>)
    ensures
        r matches Ok(tc) ==> {
            &&& wf_parsed(tc)
            &&& spec_blocks(input@).len() == 1
            &&& block_shape(spec_blocks(input@)[0], tc)
        },
        spec_scan_clean(input@) && spec_blocks(input@).len() == 1 && block_wf(
            spec_blocks(input@)[0],
        ) ==> r is Ok,
        spec_scan_clean(input@) && spec_blocks(input@).len() == 1 && block_rs(
            spec_blocks(input@)[0],
        ) >= spec_blocks(input@)[0].len() ==> (r matches Err(e) && e is MissingRequest),
        spec_scan_clean(input@) && spec_blocks(input@).len() == 1 && bad_url_at(
            spec_blocks(input@)[0],
            block_rs(spec_blocks(input@)[0]),
        ) ==> (r matches Err(e) && e is InvalidUrl),
{
    let chars = str_to_chars(input);
    let lines = split_char_exec(&chars, '\n');
    let (blocks, tail, in_body) = match segment_lines(&lines) {
        Ok(x) => x,
        Err(e) => {
            return Err(e);
        },
    };
    proof {
        assert(views_of(lines@) =~= split_at_char(input@, '\n'));
    }
    if in_body {
        return Err(ParseError::Syntax {
            line: lines.len(),
            col: 1,
            expected: String::from_str("BODYEND"),
        });
    }
    if blocks.len() != 1 || tail.len() > 0 {
        return Err(ParseError::Syntax {
            line: 1,
            col: 1,
            expected: String::from_str("one END-closed test block"),
        });
    }
    proof {
        assert(spec_blocks(input@)[0] == stored_views(blocks@[0]@));
    }
    parse_block_lines(&blocks[0], 0)
}

/// The lines a request fragment parses: its one closed block, or its
/// open tail.
pub open spec fn fragment_lines(text: Seq<char>) -> Seq<Seq<char>> {
    if spec_blocks(text).len() == 1 && spec_open_tail(text).len() == 0 {
        spec_blocks(text)[0]
    } else {
        spec_open_tail(text)
    }
}

/// A well-formed request fragment: a clean-scanning text of one closed
/// block or one open tail, holding a well-formed request portion and
/// nothing after it.
pub open spec fn fragment_wf(text: Seq<char>) -> bool {
    let lines = split_at_char(text, '\n');
    let fin = seg_run(lines, lines.len() as int);
    &&& fin.ok
    &&& (fin.blocks.len() == 0 || (fin.blocks.len() == 1 && fin.cur.len() == 0))
    &&& portion_wf(fragment_lines(text), 0)
    &&& portion_next(fragment_lines(text), 0) == fragment_lines(text).len()
}

/// Parses a request fragment: a `<METHOD> <URL>` line, headers, and an
/// optional verbatim body, with no `TEST`, `EXPECT` or `END` lines. The
/// request is shaped by the fragment's lines, whether the fragment is
/// one closed block or an unclosed tail; a well-formed fragment is owed
/// success, and one whose request URL does not parse fails as
/// `InvalidUrl`.
pub fn parse_http_request(input: &str) -> (r: Result<HttpRequest, ParseError>)
    ensures
        r matches Ok(req) ==> {
            &&& crate::http::valid_url(req.url@)
            &&& if spec_blocks(input@).len() == 1 && spec_open_tail(input@).len() == 0 {
                request_portion_shape(spec_blocks(input@)[0], 0, req)
            } else {
                spec_blocks(input@).len() == 0 && request_portion_shape(
                    spec_open_tail(input@),
                    0,
                    req,
                )
            }
        },
        fragment_wf(input@) ==> r is Ok,
        ({
            let lines = split_at_char(input@, '\n');
            let fin = seg_run(lines, lines.len() as int);
            fin.ok && (fin.blocks.len() == 0 || (fin.blocks.len() == 1 && fin.cur.len() == 0))
                && bad_url_at(fragment_lines(input@), 0)
        }) ==> (r matches Err(e) && e is InvalidUrl),
{
    let chars = str_to_chars(input);
    let lines = split_char_exec(&chars, '\n');
    let (blocks, tail, _in_body) = match segment_lines(&lines) {
        Ok(x) => x,
        Err(e) => {
            return Err(e);
        },
    };
    proof {
        assert(views_of(lines@) =~= split_at_char(input@, '\n'));
    }
    let stored: &StoredLines = if blocks.len() == 1 && tail.len() == 0 {
        proof {
            assert(spec_blocks(input@)[0] == stored_views(blocks@[0]@));
        }
        &blocks[0]
    } else if blocks.len() == 0 {
        &tail
    } else {
        return Err(ParseError::Syntax {
            line: 1,
            col: 1,
            expected: String::from_str("one request"),
        });
    };
    let (request, idx) = match parse_request_portion(stored, 0, 0) {
        Ok(p) => p,
        Err(e) => {
            return Err(e);
        },
    };
    if idx != stored.len() {
        return Err(ParseError::Syntax {
            line: 1,
            col: 1,
            expected: String::from_str("end of request"),
        });
    }
    Ok(request)
}

} // verus!

