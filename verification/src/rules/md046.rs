//! MD046 - Code block style.
//!
//! The `style` option is "consistent" (the default: every code block must
//! use the style of the first one), "fenced" or "indented". A block of the
//! wrong style is reported on its first line, with a fix that replaces the
//! whole block, and each further line of the block gets a fix-only finding
//! that deletes it.

use vstd::prelude::*;
use crate::text::{
    byte_len, byte_slice, byte_slice_chars, chars_of, eq_str, lemma_strip_eol_prefix, line_body, push_chars, push_str,
    starts_with, starts_with_str, strip_eol, string_of, text, trim, trim_vec, utf8_byte_len, views,
};
use crate::types::{
    base_error, errors_view, fix_view, lines_fit, names_view, opt_str, opt_text, FixInfo, FixView, LintError,
    LintErrorView, ParserType, RuleMeta, RuleParams,
};
use crate::config::{value_as_str, Config};
use crate::pattern::{captures, compile, group_at, group_chars, regex_captures, regex_compiles};

verus! {

pub struct MD046;

pub open spec fn md046_meta() -> RuleMeta {
    RuleMeta {
        names: seq!["MD046"@, "code-block-style"@],
        description: "Code block style"@,
        information: Some("https://github.com/DavidAnson/markdownlint/blob/main/doc/md046.md"@),
    }
}

/// The two code block styles.
#[derive(Clone, Copy, Debug, PartialEq, Eq, Structural)]
pub enum BlockStyle {
    Fenced,
    Indented,
}

/// A code block: its style, first and last line, the 1-based numbers of
/// its content lines (those between the fences, or the indented lines), and
/// the info string after an opening fence (`None` when there is none, and
/// for an indented block).
pub struct CodeBlock {
    pub style: BlockStyle,
    pub start_line: usize,
    pub end_line: usize,
    pub content_lines: Vec<usize>,
    pub fence_info: Option<String>,
}

pub struct BlockView {
    pub style: BlockStyle,
    pub start_line: usize,
    pub end_line: usize,
    pub content: Seq<usize>,
    pub fence_info: Option<Seq<char>>,
}

impl View for CodeBlock {
    type V = BlockView;

    open spec fn view(&self) -> BlockView {
        BlockView {
            style: self.style,
            start_line: self.start_line,
            end_line: self.end_line,
            content: self.content_lines@,
            fence_info: opt_text(self.fence_info),
        }
    }
}

pub open spec fn blocks_view(v: Seq<CodeBlock>) -> Seq<BlockView> {
    v.map_values(|b: CodeBlock| b@)
}

/// Optional indentation, then three or more backticks or tildes.
pub open spec fn md046_fence_pattern() -> Seq<char> {
    "^(\\s*)(`{3,}|~{3,})"@
}

/// The byte length of group `i`, 0 when it took no part.
pub open spec fn group_len(g: Seq<Option<(usize, usize)>>, i: int) -> int {
    if 0 <= i < g.len() {
        match g[i] {
            Some(s) => s.1 - s.0,
            None => 0,
        }
    } else {
        0
    }
}

pub open spec fn first_char(s: Seq<char>) -> char {
    if s.len() > 0 {
        s[0]
    } else {
        ' '
    }
}

/// The state of the block scan.
pub struct ScanView {
    pub in_fenced: bool,
    pub fence_indent: int,
    pub fence_char: char,
    pub fence_len: int,
    pub fenced_start: usize,
    pub fenced_content: Seq<usize>,
    pub fenced_info: Seq<char>,
    pub in_indented: bool,
    pub indented_start: usize,
    pub indented_content: Seq<usize>,
    pub blocks: Seq<BlockView>,
}

pub open spec fn scan_start() -> ScanView {
    ScanView {
        in_fenced: false,
        fence_indent: 0,
        fence_char: ' ',
        fence_len: 0,
        fenced_start: 0,
        fenced_content: seq![],
        fenced_info: seq![],
        in_indented: false,
        indented_start: 0,
        indented_content: seq![],
        blocks: seq![],
    }
}

/// The indented block being collected, as a block.
pub open spec fn indented_block(s: ScanView) -> BlockView {
    BlockView {
        style: BlockStyle::Indented,
        start_line: s.indented_start,
        end_line: if s.indented_content.len() > 0 {
            s.indented_content.last()
        } else {
            s.indented_start
        },
        content: s.indented_content,
        fence_info: None,
    }
}

/// The line before `idx` is blank (or there is none).
pub open spec fn prev_blank(ls: Seq<Seq<char>>, idx: int) -> bool {
    idx == 0 || trim(strip_eol(ls[idx - 1])).len() == 0
}

/// The info string kept for a fenced block: `None` when it is empty.
pub open spec fn info_of(info: Seq<char>) -> Option<Seq<char>> {
    if info.len() == 0 {
        None
    } else {
        Some(info)
    }
}

/// The scan after line `idx` (0-based).
pub open spec fn scan_step(s: ScanView, ls: Seq<Seq<char>>, idx: int) -> ScanView {
    let line = ls[idx];
    let t = strip_eol(line);
    let ln = (idx + 1) as usize;
    match regex_captures(md046_fence_pattern(), t) {
        Some(g) => {
            let indent = group_len(g, 1);
            let fc = first_char(group_at(t, g, 2));
            let fl = group_len(g, 2);
            if s.in_fenced {
                if fc == s.fence_char && fl >= s.fence_len && indent <= s.fence_indent {
                    ScanView {
                        in_fenced: false,
                        fenced_content: seq![],
                        blocks: s.blocks.push(
                            BlockView {
                                style: BlockStyle::Fenced,
                                start_line: s.fenced_start,
                                end_line: ln,
                                content: s.fenced_content,
                                fence_info: info_of(s.fenced_info),
                            },
                        ),
                        ..s
                    }
                } else {
                    ScanView { fenced_content: s.fenced_content.push(ln), ..s }
                }
            } else if indent < 4 {
                let s1 = if s.in_indented {
                    ScanView {
                        in_indented: false,
                        indented_content: seq![],
                        blocks: s.blocks.push(indented_block(s)),
                        ..s
                    }
                } else {
                    s
                };
                ScanView {
                    in_fenced: true,
                    fence_indent: indent,
                    fence_char: fc,
                    fence_len: fl,
                    fenced_start: ln,
                    fenced_content: seq![],
                    fenced_info: trim(byte_slice(t, indent + fl, byte_len(t) as int)),
                    ..s1
                }
            } else {
                s
            }
        },
        None => {
            if s.in_fenced {
                ScanView { fenced_content: s.fenced_content.push(ln), ..s }
            } else if t.len() > 0 && starts_with(line, "    "@) {
                let s1 = if !s.in_indented && prev_blank(ls, idx) {
                    ScanView { in_indented: true, indented_start: ln, ..s }
                } else {
                    s
                };
                if s1.in_indented {
                    ScanView { indented_content: s1.indented_content.push(ln), ..s1 }
                } else {
                    s1
                }
            } else if s.in_indented && t.len() > 0 {
                ScanView {
                    in_indented: false,
                    indented_content: seq![],
                    blocks: s.blocks.push(indented_block(s)),
                    ..s
                }
            } else {
                s
            }
        },
    }
}

pub open spec fn md046_scan(ls: Seq<Seq<char>>, n: int) -> ScanView
    decreases n,
{
    if n <= 0 {
        scan_start()
    } else {
        scan_step(md046_scan(ls, n - 1), ls, n - 1)
    }
}

/// The code blocks of the document; a fenced block still open at the end is
/// not one.
pub open spec fn md046_blocks(ls: Seq<Seq<char>>) -> Seq<BlockView> {
    let s = md046_scan(ls, ls.len() as int);
    if s.in_indented {
        s.blocks.push(indented_block(s))
    } else {
        s.blocks
    }
}

/// The line with a four-space indent removed.
pub open spec fn unindent(t: Seq<char>) -> Seq<char> {
    if starts_with(t, "    "@) {
        t.skip(4)
    } else {
        t
    }
}

pub open spec fn fenced_body(ls: Seq<Seq<char>>, content: Seq<usize>, k: int) -> Seq<char>
    decreases k,
{
    if k <= 0 {
        seq![]
    } else {
        fenced_body(ls, content, k - 1) + unindent(strip_eol(ls[content[k - 1] - 1])) + "\n"@
    }
}

pub open spec fn indented_body(ls: Seq<Seq<char>>, content: Seq<usize>, k: int) -> Seq<char>
    decreases k,
{
    if k <= 0 {
        seq![]
    } else if k == 1 {
        "    "@ + strip_eol(ls[content[0] - 1])
    } else {
        indented_body(ls, content, k - 1) + "\n"@ + "    "@ + strip_eol(ls[content[k - 1] - 1])
    }
}

/// The fix that rewrites a block in the target style, on its first line.
pub open spec fn block_fix(ls: Seq<Seq<char>>, b: BlockView, target: BlockStyle) -> Option<FixView> {
    if b.style == BlockStyle::Indented && target == BlockStyle::Fenced {
        Some(
            fix_view(
                Some(b.start_line),
                Some(1),
                Some(i32::MAX),
                Some("```\n"@ + fenced_body(ls, b.content, b.content.len() as int) + "```"@),
            ),
        )
    } else if b.style == BlockStyle::Fenced && target == BlockStyle::Indented {
        Some(
            fix_view(
                Some(b.start_line),
                Some(1),
                Some(i32::MAX),
                Some(
                    if b.content.len() == 0 {
                        "    "@
                    } else {
                        indented_body(ls, b.content, b.content.len() as int)
                    },
                ),
            ),
        )
    } else {
        None
    }
}

pub open spec fn style_label(s: BlockStyle) -> Seq<char> {
    match s {
        BlockStyle::Fenced => "fenced"@,
        BlockStyle::Indented => "indented"@,
    }
}

pub open spec fn md046_required(c: Config) -> Option<BlockStyle> {
    match value_as_str(c.lookup("style"@)) {
        Some(s) => if s == "fenced"@ {
            Some(BlockStyle::Fenced)
        } else if s == "indented"@ {
            Some(BlockStyle::Indented)
        } else {
            None
        },
        None => None,
    }
}

pub open spec fn block_error(ls: Seq<Seq<char>>, b: BlockView, expected: BlockStyle) -> LintErrorView {
    LintErrorView {
        detail: Some("Expected: "@ + style_label(expected) + "; Actual: "@ + style_label(b.style)),
        fix: block_fix(ls, b, expected),
        suggestion: Some("Use "@ + style_label(expected) + " code block style"@),
        ..base_error(md046_meta(), b.start_line as int)
    }
}

/// The fix-only finding that deletes line `ln`.
pub open spec fn delete_line_error(ln: int) -> LintErrorView {
    LintErrorView {
        fix: Some(fix_view(Some(ln as usize), Some(1), Some(-1i32), None)),
        fix_only: true,
        ..base_error(md046_meta(), ln)
    }
}

/// The deletions of the lines after the first of block `b`.
pub open spec fn delete_errors(b: BlockView) -> Seq<LintErrorView> {
    let count = if b.end_line > b.start_line {
        b.end_line - b.start_line
    } else {
        0
    };
    Seq::new(count as nat, |j: int| delete_line_error(b.start_line + 1 + j))
}

pub open spec fn blocks_errors(ls: Seq<Seq<char>>, blocks: Seq<BlockView>, expected: BlockStyle, k: int) -> Seq<
    LintErrorView,
>
    decreases k,
{
    if k <= 0 {
        seq![]
    } else {
        let prev = blocks_errors(ls, blocks, expected, k - 1);
        let b = blocks[k - 1];
        if b.style != expected {
            prev + seq![block_error(ls, b, expected)] + delete_errors(b)
        } else {
            prev
        }
    }
}

/// The findings of MD046 (none where the pattern is refused).
pub open spec fn md046_errors(ls: Seq<Seq<char>>, c: Config) -> Seq<LintErrorView> {
    let blocks = md046_blocks(ls);
    if !regex_compiles(md046_fence_pattern()) || blocks.len() == 0 {
        seq![]
    } else {
        let expected = match md046_required(c) {
            Some(s) => s,
            None => blocks[0].style,
        };
        blocks_errors(ls, blocks, expected, blocks.len() as int)
    }
}

/// Every content line of `b` is a line of the document.
pub open spec fn block_in(n: int, b: BlockView) -> bool {
    forall|j: int| 0 <= j < b.content.len() ==> 1 <= #[trigger] b.content[j] <= n
}

pub open spec fn scan_in(n: int, s: ScanView) -> bool {
    &&& forall|j: int| 0 <= j < s.fenced_content.len() ==> 1 <= #[trigger] s.fenced_content[j] <= n
    &&& forall|j: int| 0 <= j < s.indented_content.len() ==> 1 <= #[trigger] s.indented_content[j] <= n
    &&& forall|j: int| 0 <= j < s.blocks.len() ==> block_in(n, #[trigger] s.blocks[j])
}

/// Generate the fix that converts a code block to the target style: the
/// first line of the block is replaced by the whole new block.
pub fn generate_block_fix(lines: &[&str], block: &CodeBlock, target: BlockStyle) -> (r: Option<FixInfo>)
    requires
        lines_fit(lines@),
        block_in(lines@.len() as int, block@),
    ensures
        match r {
            Some(f) => block_fix(views(lines@), block@, target) == Some(f@),
            None => block_fix(views(lines@), block@, target).is_none(),
        },
{
    let ghost ls = views(lines@);
    let ghost content = block@.content;
    if block.style == BlockStyle::Indented && target == BlockStyle::Fenced {
        let mut replacement = text("```\n");
        let m = block.content_lines.len();
        let mut k: usize = 0;
        while k < m
            invariant
                m == content.len(),
                content == block@.content,
                k <= m,
                ls == views(lines@),
                block_in(lines@.len() as int, block@),
                replacement@ == "```\n"@ + fenced_body(ls, content, k as int),
            decreases m - k,
        {
            let ln = block.content_lines[k];
            assert(1 <= content[k as int] <= lines@.len());
            let t = line_body(lines, ln - 1);
            proof {
                reveal_strlit("    ");
            }
            let u = if starts_with_str(&t, "    ") {
                crate::text::slice_chars(&t, 4, t.len())
            } else {
                t
            };
            proof {
                if starts_with(t@, "    "@) {
                    assert(t@.subrange(4, t@.len() as int) =~= t@.skip(4));
                }
            }
            push_chars(&mut replacement, &u);
            push_str(&mut replacement, "\n");
            k = k + 1;
            assert(replacement@ =~= "```\n"@ + fenced_body(ls, content, k as int));
        }
        push_str(&mut replacement, "```");
        Some(
            FixInfo {
                line_number: Some(block.start_line),
                edit_column: Some(1),
                delete_count: Some(i32::MAX),
                insert_text: Some(replacement),
            },
        )
    } else if block.style == BlockStyle::Fenced && target == BlockStyle::Indented {
        let mut replacement = String::new();
        let m = block.content_lines.len();
        if m == 0 {
            push_str(&mut replacement, "    ");
        } else {
            let mut k: usize = 0;
            while k < m
                invariant
                    m == content.len(),
                    m > 0,
                    content == block@.content,
                    k <= m,
                    ls == views(lines@),
                    block_in(lines@.len() as int, block@),
                    replacement@ == indented_body(ls, content, k as int),
                decreases m - k,
            {
                let ln = block.content_lines[k];
                assert(1 <= content[k as int] <= lines@.len());
                let t = line_body(lines, ln - 1);
                if k > 0 {
                    push_str(&mut replacement, "\n");
                }
                push_str(&mut replacement, "    ");
                push_chars(&mut replacement, &t);
                k = k + 1;
                assert(replacement@ =~= indented_body(ls, content, k as int));
            }
        }
        assert(replacement@ == if content.len() == 0 {
            "    "@
        } else {
            indented_body(ls, content, content.len() as int)
        });
        Some(
            FixInfo {
                line_number: Some(block.start_line),
                edit_column: Some(1),
                delete_count: Some(i32::MAX),
                insert_text: Some(replacement),
            },
        )
    } else {
        None
    }
}

/// The block being collected from the indented lines so far.
fn close_indented(start: usize, content: &Vec<usize>) -> (b: CodeBlock)
    ensures
        b@ == (BlockView {
            style: BlockStyle::Indented,
            start_line: start,
            end_line: if content@.len() > 0 {
                content@.last()
            } else {
                start
            },
            content: content@,
            fence_info: None,
        }),
{
    let end_line = if content.len() > 0 {
        content[content.len() - 1]
    } else {
        start
    };
    CodeBlock {
        style: BlockStyle::Indented,
        start_line: start,
        end_line,
        content_lines: content.clone(),
        fence_info: None,
    }
}

/// The line is blank, ignoring its line ending and surrounding whitespace.
fn blank_line(lines: &[&str], i: usize) -> (r: bool)
    requires
        i < lines@.len(),
    ensures
        r == (trim(strip_eol(lines@[i as int]@)).len() == 0),
{
    let t = line_body(lines, i);
    trim_vec(&t).len() == 0
}

/// Find all code blocks in the document, with their style, line range and
/// content lines; `None` where the fence pattern is refused.
pub fn find_code_blocks(lines: &[&str]) -> (r: Option<Vec<CodeBlock>>)
    requires
        lines_fit(lines@),
    ensures
        match r {
            Some(b) => regex_compiles(md046_fence_pattern()) && blocks_view(b@) == md046_blocks(
                views(lines@),
            ) && blocks_ordered(lines@.len() as int, blocks_view(b@)) && forall|j: int|
                0 <= j < b@.len() ==> block_in(lines@.len() as int, #[trigger] b@[j]@),
            None => !regex_compiles(md046_fence_pattern()),
        },
{
    let re = match compile("^(\\s*)(`{3,}|~{3,})") {
        Some(p) => p,
        None => {
            return None;
        },
    };
    let ghost ls = views(lines@);
    let n = lines.len();
    let mut blocks: Vec<CodeBlock> = Vec::new();
    let mut in_fenced = false;
    let mut fence_indent: usize = 0;
    let mut fence_char = ' ';
    let mut fence_len: usize = 0;
    let mut fenced_start: usize = 0;
    let mut fenced_content: Vec<usize> = Vec::new();
    let mut fenced_info: Vec<char> = Vec::new();
    let mut in_indented = false;
    let mut indented_start: usize = 0;
    let mut indented_content: Vec<usize> = Vec::new();
    let mut idx: usize = 0;
    assert(blocks_view(blocks@) =~= seq![]);
    assert(fenced_content@ =~= seq![]);
    assert(fenced_info@ =~= seq![]);
    assert(indented_content@ =~= seq![]);
    while idx < n
        invariant
            n == lines@.len(),
            idx <= n,
            ls == views(lines@),
            lines_fit(lines@),
            re@ == md046_fence_pattern(),
            md046_scan(ls, idx as int) == (ScanView {
                in_fenced,
                fence_indent: fence_indent as int,
                fence_char,
                fence_len: fence_len as int,
                fenced_start,
                fenced_content: fenced_content@,
                fenced_info: fenced_info@,
                in_indented,
                indented_start,
                indented_content: indented_content@,
                blocks: blocks_view(blocks@),
            }),
            scan_in(
                n as int,
                ScanView {
                    in_fenced,
                    fence_indent: fence_indent as int,
                    fence_char,
                    fence_len: fence_len as int,
                    fenced_start,
                    fenced_content: fenced_content@,
                    fenced_info: fenced_info@,
                    in_indented,
                    indented_start,
                    indented_content: indented_content@,
                    blocks: blocks_view(blocks@),
                },
            ),
        decreases n - idx,
    {
        let ghost s0 = md046_scan(ls, idx as int);
        let ln = idx + 1;
        let t = line_body(lines, idx);
        proof {
            assert(byte_len(lines@[idx as int]@) <= isize::MAX);
            lemma_strip_eol_prefix(lines@[idx as int]@);
        }
        let ts = string_of(&t);
        match captures(&re, ts.as_str()) {
            Some(g) => {
                let indent: usize = if 1 < g.len() {
                    match g[1] {
                        Some(x) => x.1 - x.0,
                        None => 0,
                    }
                } else {
                    0
                };
                let fence = group_chars(&t, &g, 2);
                let fc = if fence.len() > 0 {
                    fence[0]
                } else {
                    ' '
                };
                let fl: usize = if 2 < g.len() {
                    match g[2] {
                        Some(x) => x.1 - x.0,
                        None => 0,
                    }
                } else {
                    0
                };
                if in_fenced {
                    if fc == fence_char && fl >= fence_len && indent <= fence_indent {
                        let info = if fenced_info.len() == 0 {
                            None
                        } else {
                            Some(string_of(&fenced_info))
                        };
                        let b = CodeBlock {
                            style: BlockStyle::Fenced,
                            start_line: fenced_start,
                            end_line: ln,
                            content_lines: fenced_content.clone(),
                            fence_info: info,
                        };
                        assert(b.content_lines@ == fenced_content@);
                        blocks.push(b);
                        in_fenced = false;
                        fenced_content = Vec::new();
                        assert(blocks_view(blocks@) =~= s0.blocks.push(
                            BlockView {
                                style: BlockStyle::Fenced,
                                start_line: s0.fenced_start,
                                end_line: ln,
                                content: s0.fenced_content,
                                fence_info: info_of(s0.fenced_info),
                            },
                        ));
                    } else {
                        fenced_content.push(ln);
                    }
                } else if indent < 4 {
                    if in_indented {
                        let b = close_indented(indented_start, &indented_content);
                        blocks.push(b);
                        in_indented = false;
                        indented_content = Vec::new();
                        assert(blocks_view(blocks@) =~= s0.blocks.push(indented_block(s0)));
                    }
                    in_fenced = true;
                    fence_indent = indent;
                    fence_char = fc;
                    fence_len = fl;
                    fenced_start = ln;
                    fenced_content = Vec::new();
                    let tl = utf8_byte_len(&t);
                    let rest = byte_slice_chars(&t, indent + fl, tl);
                    fenced_info = trim_vec(&rest);
                }
            },
            None => {
                if in_fenced {
                    fenced_content.push(ln);
                } else if t.len() > 0 && starts_with_str(&chars_of(lines[idx]), "    ") {
                    if !in_indented {
                        let pb = if idx == 0 {
                            true
                        } else {
                            blank_line(lines, idx - 1)
                        };
                        if pb {
                            in_indented = true;
                            indented_start = ln;
                        }
                    }
                    if in_indented {
                        indented_content.push(ln);
                    }
                } else if in_indented && t.len() > 0 {
                    let b = close_indented(indented_start, &indented_content);
                    blocks.push(b);
                    in_indented = false;
                    indented_content = Vec::new();
                    assert(blocks_view(blocks@) =~= s0.blocks.push(indented_block(s0)));
                }
            },
        }
        idx = idx + 1;
    }
    let ghost old_blocks = blocks@;
    assert forall|j: int| 0 <= j < old_blocks.len() implies block_in(n as int, #[trigger] old_blocks[j]@) by {
        assert(blocks_view(old_blocks)[j] == old_blocks[j]@);
    }
    if in_indented {
        let b = close_indented(indented_start, &indented_content);
        blocks.push(b);
        assert(block_in(n as int, blocks@[old_blocks.len() as int]@));
    }
    assert forall|j: int| 0 <= j < blocks@.len() implies block_in(n as int, #[trigger] blocks@[j]@) by {
        if j < old_blocks.len() {
            assert(blocks@[j] == old_blocks[j]);
        }
    }
    assert(blocks_view(blocks@) =~= md046_blocks(ls));
    proof {
        lemma_md046_blocks_ordered(ls);
    }
    Some(blocks)
}

impl MD046 {
    pub fn names(&self) -> (r: Vec<&'static str>)
        ensures
            names_view(r@) == md046_meta().names,
    {
        let r = vec!["MD046", "code-block-style"];
        assert(names_view(r@) =~= md046_meta().names);
        r
    }

    pub fn description(&self) -> (r: &'static str)
        ensures
            r@ == md046_meta().description,
    {
        "Code block style"
    }

    pub fn tags(&self) -> (r: Vec<&'static str>)
        ensures
            names_view(r@) == seq!["code"@, "fixable"@],
    {
        let r = vec!["code", "fixable"];
        assert(names_view(r@) =~= seq!["code"@, "fixable"@]);
        r
    }

    pub fn parser_type(&self) -> (r: ParserType)
        ensures
            r == ParserType::Plain,
    {
        ParserType::Plain
    }

    pub fn information(&self) -> (r: Option<&'static str>)
        ensures
            opt_str(r) == md046_meta().information,
    {
        Some("https://github.com/DavidAnson/markdownlint/blob/main/doc/md046.md")
    }

    #[verifier::rlimit(40)]
    pub fn lint(&self, params: &RuleParams) -> (errors: Vec<LintError>)
        requires
            lines_fit(params.lines@),
        ensures
            errors_view(errors@) == md046_errors(views(params.lines@), *params.config),
    {
        let lines = params.lines;
        let ghost ls = views(lines@);
        let required = match params.config.get_str("style") {
            Some(s) => {
                if eq_str(&s, "fenced") {
                    Some(BlockStyle::Fenced)
                } else if eq_str(&s, "indented") {
                    Some(BlockStyle::Indented)
                } else {
                    None
                }
            },
            None => None,
        };
        assert(required == md046_required(*params.config));
        let mut errors: Vec<LintError> = Vec::new();
        let blocks = match find_code_blocks(lines) {
            Some(b) => b,
            None => {
                assert(errors_view(errors@) =~= seq![]);
                return errors;
            },
        };
        let ghost bv = blocks_view(blocks@);
        if blocks.len() == 0 {
            assert(errors_view(errors@) =~= seq![]);
            return errors;
        }
        let expected = match required {
            Some(s) => s,
            None => blocks[0].style,
        };
        let expected_label = if expected == BlockStyle::Fenced {
            "fenced"
        } else {
            "indented"
        };
        let names = self.names();
        let m = blocks.len();
        let mut k: usize = 0;
        assert(errors_view(errors@) =~= seq![]);
        while k < m
            invariant
                m == blocks@.len(),
                k <= m,
                bv == blocks_view(blocks@),
                ls == views(lines@),
                lines_fit(lines@),
                forall|j: int| 0 <= j < blocks@.len() ==> block_in(lines@.len() as int, #[trigger] blocks@[j]@),
                expected_label@ == style_label(expected),
                names_view(names@) == md046_meta().names,
                errors_view(errors@) == blocks_errors(ls, bv, expected, k as int),
            decreases m - k,
        {
            let block = &blocks[k];
            assert(bv[k as int] == block@);
            assert(block_in(lines@.len() as int, blocks@[k as int]@));
            if block.style != expected {
                let ghost before = errors_view(errors@);
                let actual_label = if block.style == BlockStyle::Fenced {
                    "fenced"
                } else {
                    "indented"
                };
                let fix_info = generate_block_fix(lines, block, expected);
                let mut e = LintError::new(block.start_line, &names, self.description(), self.information());
                let mut d = text("Expected: ");
                push_str(&mut d, expected_label);
                push_str(&mut d, "; Actual: ");
                push_str(&mut d, actual_label);
                e.error_detail = Some(d);
                e.fix_info = fix_info;
                let mut sug = text("Use ");
                push_str(&mut sug, expected_label);
                push_str(&mut sug, " code block style");
                e.suggestion = Some(sug);
                errors.push(e);
                assert(errors_view(errors@) =~= before + seq![block_error(ls, block@, expected)]);
                let ghost mid = errors_view(errors@);
                let count: usize = if block.end_line > block.start_line {
                    block.end_line - block.start_line
                } else {
                    0
                };
                let mut j: usize = 0;
                while j < count
                    invariant
                        j <= count,
                        count == delete_errors(block@).len(),
                        count as int == (if block.end_line > block.start_line {
                            block.end_line - block.start_line
                        } else {
                            0
                        }),
                        names_view(names@) == md046_meta().names,
                        errors_view(errors@) == mid + delete_errors(block@).take(j as int),
                    decreases count - j,
                {
                    let line_num = block.start_line + 1 + j;
                    let mut h = LintError::new(line_num, &names, self.description(), self.information());
                    h.fix_info = Some(
                        FixInfo {
                            line_number: Some(line_num),
                            edit_column: Some(1),
                            delete_count: Some(-1),
                            insert_text: None,
                        },
                    );
                    h.fix_only = true;
                    let ghost b2 = errors_view(errors@);
                    errors.push(h);
                    proof {
                        assert(delete_errors(block@).take(j + 1) =~= delete_errors(block@).take(
                            j as int,
                        ).push(delete_line_error(line_num as int)));
                    }
                    assert(errors_view(errors@) =~= b2.push(h@));
                    j = j + 1;
                }
                assert(delete_errors(block@).take(count as int) =~= delete_errors(block@));
                assert(errors_view(errors@) =~= before + (seq![block_error(ls, block@, expected)]
                    + delete_errors(block@)));
            }
            k = k + 1;
        }
        errors
    }
}

/// Content lines that increase from one to the next.
pub open spec fn increasing(c: Seq<usize>) -> bool {
    forall|j: int| 0 < j < c.len() ==> c[j - 1] < #[trigger] c[j]
}

/// A block within the first `n` lines: it starts no later than it ends,
/// its content lines increase, a fenced block's content lies strictly
/// between its fences, and an indented block's content runs from its first
/// line to its last and has no info string.
pub open spec fn block_ok(n: int, b: BlockView) -> bool {
    &&& 1 <= b.start_line <= b.end_line <= n
    &&& increasing(b.content)
    &&& b.style == BlockStyle::Fenced ==> forall|j: int|
        0 <= j < b.content.len() ==> b.start_line < #[trigger] b.content[j] < b.end_line
    &&& b.style == BlockStyle::Indented ==> b.content.len() > 0 && b.content[0] == b.start_line
        && b.content.last() == b.end_line && b.fence_info is None
}

/// Blocks within the first `n` lines, each ending before the next starts.
pub open spec fn blocks_ordered(n: int, bs: Seq<BlockView>) -> bool {
    &&& forall|j: int| 0 <= j < bs.len() ==> block_ok(n, #[trigger] bs[j])
    &&& forall|j: int| 0 < j < bs.len() ==> bs[j - 1].end_line < (#[trigger] bs[j]).start_line
}

/// The state of the scan after `n` lines: finished blocks in order, and the
/// block being collected after them.
pub open spec fn scan_ok(n: int, s: ScanView) -> bool {
    &&& blocks_ordered(n, s.blocks)
    &&& !(s.in_fenced && s.in_indented)
    &&& !s.in_indented ==> s.indented_content.len() == 0
    &&& s.in_fenced ==> {
        &&& 1 <= s.fenced_start <= n
        &&& s.blocks.len() > 0 ==> s.blocks.last().end_line < s.fenced_start
        &&& increasing(s.fenced_content)
        &&& forall|j: int|
            0 <= j < s.fenced_content.len() ==> s.fenced_start < #[trigger] s.fenced_content[j] <= n
    }
    &&& s.in_indented ==> {
        &&& 1 <= s.indented_start
        &&& s.blocks.len() > 0 ==> s.blocks.last().end_line < s.indented_start
        &&& s.indented_content.len() > 0
        &&& s.indented_content[0] == s.indented_start
        &&& increasing(s.indented_content)
        &&& forall|j: int| 0 <= j < s.indented_content.len() ==> #[trigger] s.indented_content[j] <= n
    }
}

proof fn lemma_push_ordered(n: int, bs: Seq<BlockView>, b: BlockView)
    requires
        blocks_ordered(n, bs),
        block_ok(n, b),
        bs.len() > 0 ==> bs.last().end_line < b.start_line,
    ensures
        blocks_ordered(n, bs.push(b)),
{
    let r = bs.push(b);
    assert forall|j: int| 0 <= j < r.len() implies block_ok(n, #[trigger] r[j]) by {
        if j < bs.len() {
            assert(r[j] == bs[j]);
        }
    }
    assert forall|j: int| 0 < j < r.len() implies r[j - 1].end_line < (#[trigger] r[j]).start_line by {
        assert(r[j - 1] == bs[j - 1]);
        if j < bs.len() {
            assert(r[j] == bs[j]);
        }
    }
}

proof fn lemma_ordered_grow(n: int, m: int, bs: Seq<BlockView>)
    requires
        n <= m,
        blocks_ordered(n, bs),
    ensures
        blocks_ordered(m, bs),
{
    assert forall|j: int| 0 <= j < bs.len() implies block_ok(m, #[trigger] bs[j]) by {
        assert(block_ok(n, bs[j]));
    }
}

proof fn lemma_push_increasing(c: Seq<usize>, x: usize)
    requires
        increasing(c),
        c.len() > 0 ==> c.last() < x,
    ensures
        increasing(c.push(x)),
{
    let r = c.push(x);
    assert forall|j: int| 0 < j < r.len() implies r[j - 1] < #[trigger] r[j] by {
        assert(r[j - 1] == c[j - 1]);
        if j < c.len() {
            assert(r[j] == c[j]);
        }
    }
}

proof fn lemma_indented_block_ok(n: int, s: ScanView)
    requires
        scan_ok(n, s),
        s.in_indented,
    ensures
        block_ok(n, indented_block(s)),
        indented_block(s).start_line == s.indented_start,
{
    let c = s.indented_content;
    let b = indented_block(s);
    assert(c[c.len() - 1] <= n);
    assert forall|j: int| 0 <= j < c.len() implies c[0] <= #[trigger] c[j] by {
        lemma_increasing_from(c, 0, j);
    }
}

proof fn lemma_increasing_from(c: Seq<usize>, i: int, j: int)
    requires
        increasing(c),
        0 <= i <= j < c.len(),
    ensures
        c[i] <= c[j],
    decreases j - i,
{
    if i < j {
        lemma_increasing_from(c, i, j - 1);
    }
}

proof fn lemma_scan_grow(n: int, s: ScanView)
    requires
        n >= 1,
        scan_ok(n - 1, s),
    ensures
        scan_ok(n, s),
{
    lemma_ordered_grow(n - 1, n, s.blocks);
}

proof fn lemma_fenced_push(n: int, s: ScanView)
    requires
        1 <= n <= usize::MAX,
        scan_ok(n - 1, s),
        s.in_fenced,
    ensures
        scan_ok(n, ScanView { fenced_content: s.fenced_content.push(n as usize), ..s }),
{
    lemma_ordered_grow(n - 1, n, s.blocks);
    let ln = n as usize;
    if s.fenced_content.len() > 0 {
        assert(s.fenced_content[s.fenced_content.len() - 1] <= n - 1);
    }
    lemma_push_increasing(s.fenced_content, ln);
    let fc = s.fenced_content.push(ln);
    assert forall|j: int| 0 <= j < fc.len() implies s.fenced_start < #[trigger] fc[j] <= n by {
        if j < s.fenced_content.len() {
            assert(fc[j] == s.fenced_content[j]);
        }
    }
}

proof fn lemma_fenced_close(n: int, s: ScanView, fb: BlockView)
    requires
        1 <= n <= usize::MAX,
        scan_ok(n - 1, s),
        s.in_fenced,
        fb.style == BlockStyle::Fenced,
        fb.start_line == s.fenced_start,
        fb.end_line == n as usize,
        fb.content == s.fenced_content,
    ensures
        scan_ok(n, ScanView { in_fenced: false, fenced_content: seq![], blocks: s.blocks.push(fb), ..s }),
{
    lemma_ordered_grow(n - 1, n, s.blocks);
    assert forall|j: int| 0 <= j < fb.content.len() implies fb.start_line < #[trigger] fb.content[j] < fb.end_line by {
        assert(fb.content[j] == s.fenced_content[j]);
    }
    assert(block_ok(n, fb));
    lemma_push_ordered(n, s.blocks, fb);
}

/// The state after an indented block being collected is closed.
pub open spec fn close_indented_state(s: ScanView) -> ScanView {
    ScanView { in_indented: false, indented_content: seq![], blocks: s.blocks.push(indented_block(s)), ..s }
}

proof fn lemma_indented_close(n: int, s: ScanView)
    requires
        scan_ok(n, s),
        s.in_indented,
    ensures
        scan_ok(n, close_indented_state(s)),
        close_indented_state(s).blocks.last().end_line <= n,
{
    lemma_indented_block_ok(n, s);
    lemma_push_ordered(n, s.blocks, indented_block(s));
}

proof fn lemma_fence_open(n: int, s: ScanView, indent: int, fc: char, fl: int, info: Seq<char>)
    requires
        1 <= n <= usize::MAX,
        scan_ok(n - 1, s),
        !s.in_fenced,
    ensures
        ({
            let s1 = if s.in_indented {
                close_indented_state(s)
            } else {
                s
            };
            scan_ok(
                n,
                ScanView {
                    in_fenced: true,
                    fence_indent: indent,
                    fence_char: fc,
                    fence_len: fl,
                    fenced_start: n as usize,
                    fenced_content: seq![],
                    fenced_info: info,
                    ..s1
                },
            )
        }),
{
    lemma_ordered_grow(n - 1, n, s.blocks);
    if s.in_indented {
        lemma_indented_close(n - 1, s);
        lemma_ordered_grow(n - 1, n, close_indented_state(s).blocks);
    } else {
        if s.blocks.len() > 0 {
            assert(block_ok(n - 1, s.blocks[s.blocks.len() - 1]));
        }
    }
}

proof fn lemma_indented_line(n: int, s: ScanView, starts: bool)
    requires
        1 <= n <= usize::MAX,
        scan_ok(n - 1, s),
        !s.in_fenced,
    ensures
        ({
            let s1 = if !s.in_indented && starts {
                ScanView { in_indented: true, indented_start: n as usize, ..s }
            } else {
                s
            };
            scan_ok(
                n,
                if s1.in_indented {
                    ScanView { indented_content: s1.indented_content.push(n as usize), ..s1 }
                } else {
                    s1
                },
            )
        }),
{
    lemma_ordered_grow(n - 1, n, s.blocks);
    let ln = n as usize;
    if s.in_indented {
        let ic = s.indented_content;
        assert(ic[ic.len() - 1] <= n - 1);
        lemma_push_increasing(ic, ln);
        let c2 = ic.push(ln);
        assert forall|j: int| 0 <= j < c2.len() implies #[trigger] c2[j] <= n by {
            if j < ic.len() {
                assert(c2[j] == ic[j]);
            }
        }
        assert(c2[0] == ic[0]);
    } else if starts {
        let c1: Seq<usize> = seq![ln];
        assert(s.indented_content.push(ln) =~= c1);
        assert(increasing(c1));
        if s.blocks.len() > 0 {
            assert(block_ok(n - 1, s.blocks[s.blocks.len() - 1]));
        }
    }
}

/// One step of the scan keeps its state in order.
#[verifier::rlimit(30)]
proof fn lemma_scan_step_ok(ls: Seq<Seq<char>>, idx: int)
    requires
        0 <= idx < ls.len(),
        ls.len() <= usize::MAX,
        scan_ok(idx, md046_scan(ls, idx)),
    ensures
        scan_ok(idx + 1, md046_scan(ls, idx + 1)),
{
    let s = md046_scan(ls, idx);
    let n = idx + 1;
    let line = ls[idx];
    let t = strip_eol(line);
    assert(md046_scan(ls, idx + 1) == scan_step(s, ls, idx));
    match regex_captures(md046_fence_pattern(), t) {
        Some(g) => {
            let indent = group_len(g, 1);
            let fc = first_char(group_at(t, g, 2));
            let fl = group_len(g, 2);
            if s.in_fenced {
                if fc == s.fence_char && fl >= s.fence_len && indent <= s.fence_indent {
                    lemma_fenced_close(
                        n,
                        s,
                        BlockView {
                            style: BlockStyle::Fenced,
                            start_line: s.fenced_start,
                            end_line: n as usize,
                            content: s.fenced_content,
                            fence_info: info_of(s.fenced_info),
                        },
                    );
                } else {
                    lemma_fenced_push(n, s);
                }
            } else if indent < 4 {
                lemma_fence_open(n, s, indent, fc, fl, trim(byte_slice(t, indent + fl, byte_len(t) as int)));
            } else {
                lemma_scan_grow(n, s);
            }
        },
        None => {
            if s.in_fenced {
                lemma_fenced_push(n, s);
            } else if t.len() > 0 && starts_with(line, "    "@) {
                lemma_indented_line(n, s, prev_blank(ls, idx));
            } else if s.in_indented && t.len() > 0 {
                lemma_scan_grow(n, s);
                lemma_indented_close(n, s);
            } else {
                lemma_scan_grow(n, s);
            }
        },
    }
}

proof fn lemma_scan_ok(ls: Seq<Seq<char>>, n: int)
    requires
        0 <= n <= ls.len(),
        ls.len() <= usize::MAX,
    ensures
        scan_ok(n, md046_scan(ls, n)),
    decreases n,
{
    if n > 0 {
        lemma_scan_ok(ls, n - 1);
        lemma_scan_step_ok(ls, n - 1);
    } else {
        assert(scan_ok(0, scan_start()));
    }
}

/// The code blocks of a document lie within it, each before the next; the
/// content lines of each increase, those of a fenced block lie strictly
/// between its fences, and an indented block runs from its first content
/// line to its last.
pub proof fn lemma_md046_blocks_ordered(ls: Seq<Seq<char>>)
    requires
        ls.len() <= usize::MAX,
    ensures
        blocks_ordered(ls.len() as int, md046_blocks(ls)),
{
    let n = ls.len() as int;
    lemma_scan_ok(ls, n);
    let s = md046_scan(ls, n);
    if s.in_indented {
        lemma_indented_block_ok(n, s);
        lemma_push_ordered(n, s.blocks, indented_block(s));
    }
}

proof fn lemma_blocks_errors_none(ls: Seq<Seq<char>>, blocks: Seq<BlockView>, expected: BlockStyle, k: int)
    requires
        0 <= k <= blocks.len(),
        forall|j: int| 0 <= j < k ==> (#[trigger] blocks[j]).style == expected,
    ensures
        blocks_errors(ls, blocks, expected, k) == Seq::<LintErrorView>::empty(),
    decreases k,
{
    if k > 0 {
        lemma_blocks_errors_none(ls, blocks, expected, k - 1);
    }
}

/// A document whose code blocks all have the required style (or, with no
/// style required, all share one style) gets no MD046 findings.
pub proof fn lemma_md046_consistent(ls: Seq<Seq<char>>, c: Config)
    requires
        forall|j: int|
            0 <= j < md046_blocks(ls).len() ==> (#[trigger] md046_blocks(ls)[j]).style == match md046_required(c) {
                Some(s) => s,
                None => md046_blocks(ls)[0].style,
            },
    ensures
        md046_errors(ls, c) == Seq::<LintErrorView>::empty(),
{
    let blocks = md046_blocks(ls);
    if regex_compiles(md046_fence_pattern()) && blocks.len() > 0 {
        let expected = match md046_required(c) {
            Some(s) => s,
            None => blocks[0].style,
        };
        lemma_blocks_errors_none(ls, blocks, expected, blocks.len() as int);
    }
}

} // verus!
