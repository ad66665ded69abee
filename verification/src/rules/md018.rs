//! MD018 - No space after hash on atx style heading.

use vstd::prelude::*;
use crate::text::{
    chars_of, push_chars, push_str, slice_chars, starts_with, starts_with_str, string_of, text,
    trim, trim_start, trim_start_vec, trim_vec, views,
};
use crate::types::{
    base_error, errors_view, fix_view, names_view, opt_str, FixInfo, LintError, LintErrorView,
    ParserType, RuleMeta, RuleParams,
};

use crate::text::{leading_count, leading_len, push_repeat, repeat_char};

verus! {

pub struct MD018;

pub open spec fn md018_meta() -> RuleMeta {
    RuleMeta {
        names: seq!["MD018"@, "no-missing-space-atx"@],
        description: "No space after hash on atx style heading"@,
        information: Some("https://github.com/DavidAnson/markdownlint/blob/main/doc/md018.md"@),
    }
}

/// For a line `#text` (one to six hashes directly followed by non-blank
/// text), the number of hashes.
pub open spec fn missing_space(line: Seq<char>) -> Option<nat> {
    let t = trim_start(line);
    let hc = leading_count(t, '#');
    let after = t.skip(hc as int);
    if starts_with(t, "#"@) && hc > 0 && hc <= 6 && after.len() > 0 && trim(after).len() > 0
        && !starts_with(after, " "@) && !starts_with(after, "\t"@) {
        Some(hc)
    } else {
        None
    }
}

pub open spec fn md018_error(line: Seq<char>, i: int, hc: nat) -> LintErrorView {
    let t = trim_start(line);
    let after = t.skip(hc as int);
    LintErrorView {
        context: Some(t.take((hc + if after.len() < 10 { after.len() } else { 10 }) as int)),
        range: Some(((hc + 1) as usize, 1usize)),
        fix: Some(fix_view(None, Some((hc + 1) as usize), None, Some(" "@))),
        suggestion: Some(
            "Add a space after the # symbol: '"@ + repeat_char('#', hc) + " "@ + trim(after) + "'"@,
        ),
        ..base_error(md018_meta(), i + 1)
    }
}

pub open spec fn md018_scan(ls: Seq<Seq<char>>, n: int) -> Seq<LintErrorView>
    decreases n,
{
    if n <= 0 {
        seq![]
    } else {
        let prev = md018_scan(ls, n - 1);
        match missing_space(ls[n - 1]) {
            Some(hc) => prev.push(md018_error(ls[n - 1], n - 1, hc)),
            None => prev,
        }
    }
}

/// The findings of MD018.
pub open spec fn md018_errors(ls: Seq<Seq<char>>) -> Seq<LintErrorView> {
    md018_scan(ls, ls.len() as int)
}

impl MD018 {
    pub fn names(&self) -> (r: Vec<&'static str>)
        ensures
            names_view(r@) == md018_meta().names,
    {
        let r = vec!["MD018", "no-missing-space-atx"];
        assert(names_view(r@) =~= md018_meta().names);
        r
    }

    pub fn description(&self) -> (r: &'static str)
        ensures
            r@ == md018_meta().description,
    {
        "No space after hash on atx style heading"
    }

    pub fn tags(&self) -> (r: Vec<&'static str>)
        ensures
            names_view(r@) == seq!["headings"@, "atx"@, "spaces"@, "fixable"@],
    {
        let r = vec!["headings", "atx", "spaces", "fixable"];
        assert(names_view(r@) =~= seq!["headings"@, "atx"@, "spaces"@, "fixable"@]);
        r
    }

    pub fn parser_type(&self) -> (r: ParserType)
        ensures
            r == ParserType::Plain,
    {
        ParserType::Plain
    }

    pub fn information(&self) -> (r: Option<&'static str>)
        ensures
            opt_str(r) == md018_meta().information,
    {
        Some("https://github.com/DavidAnson/markdownlint/blob/main/doc/md018.md")
    }

    pub fn lint(&self, params: &RuleParams) -> (errors: Vec<LintError>)
        ensures
            errors_view(errors@) == md018_errors(views(params.lines@)),
    {
        let lines = params.lines;
        let ghost ls = views(lines@);
        let names = self.names();
        let mut errors: Vec<LintError> = Vec::new();
        let n = lines.len();
        let mut i: usize = 0;
        while i < n
            invariant
                n == lines@.len(),
                i <= n,
                ls == views(lines@),
                names_view(names@) == md018_meta().names,
                errors_view(errors@) == md018_scan(ls, i as int),
            decreases n - i,
        {
            let ghost before = errors@;
            let v = chars_of(lines[i]);
            let t = trim_start_vec(&v);
            let hash_count = leading_len(&t, '#');
            let after = slice_chars(&t, hash_count, t.len());
            assert(after@ =~= t@.skip(hash_count as int));
            let at = trim_vec(&after);
            if starts_with_str(&t, "#") && hash_count > 0 && hash_count <= 6 && after.len() > 0
                && at.len() > 0 && !starts_with_str(&after, " ") && !starts_with_str(&after, "\t") {
                let extra = if after.len() < 10 {
                    after.len()
                } else {
                    10
                };
                let ctx = slice_chars(&t, 0, hash_count + extra);
                assert(ctx@ =~= t@.take(hash_count + extra));
                let mut e = LintError::new(i + 1, &names, self.description(), self.information());
                e.error_context = Some(string_of(&ctx));
                e.error_range = Some((hash_count + 1, 1));
                e.fix_info = Some(
                    FixInfo {
                        line_number: None,
                        edit_column: Some(hash_count + 1),
                        delete_count: None,
                        insert_text: Some(text(" ")),
                    },
                );
                let mut s = text("Add a space after the # symbol: '");
                push_repeat(&mut s, '#', hash_count);
                push_str(&mut s, " ");
                push_chars(&mut s, &at);
                push_str(&mut s, "'");
                e.suggestion = Some(s);
                errors.push(e);
                assert(errors_view(errors@) =~= errors_view(before).push(md018_error(ls[i as int], i as int, hash_count as nat)));
            }
            i = i + 1;
        }
        errors
    }
}

} // verus!
