//! The laws the parser obeys, each proved from the contracts in
//! [`crate::parse`].

use vstd::prelude::*;

verus! {

use crate::parse::{
    frontmatter_delimiter, header_fields, heading_name, parse_model, section_step, sections_from,
    sections_of, DocModel, ErrorModel,
};
use crate::text::{blank, find_from, is_whitespace, lemma_find_from, lines_from, matches_at, trimmed};

/// A parse that succeeds reproduces its inputs exactly: the identifier is
/// kept, `tier` and `maintainers` are exactly what the frontmatter block
/// declares, and the sections are exactly what the body's lines declare,
/// in order, with trimmed bodies.
pub proof fn lemma_round_trip(
    name: Seq<char>,
    content: Seq<char>,
    allowed: Seq<Seq<char>>,
    d: DocModel,
)
    ensures
        parse_model(name, content, allowed) == Ok::<DocModel, ErrorModel>(d) ==> {
            &&& d.pattern == name
            &&& match find_from(content, frontmatter_delimiter(), 0) {
                Some(i1) => match find_from(content, frontmatter_delimiter(), i1 + 4) {
                    Some(i2) => {
                        &&& header_fields(content.subrange(i1 + 4, i2)) == Ok::<
                            (Option<Seq<char>>, Seq<Seq<char>>),
                            Seq<char>,
                        >((d.tier, d.maintainers))
                        &&& match sections_of(
                            lines_from(content.subrange(i2 + 4, content.len() as int), 0),
                            allowed,
                        ) {
                            Ok(raw) => d.sections == raw.map_values(
                                |p: (Seq<char>, Seq<char>)| (p.0, trimmed(p.1)),
                            ),
                            Err(_) => false,
                        }
                    },
                    None => false,
                },
                None => false,
            }
        },
{
}

/// A document in which the frontmatter delimiter line never occurs is
/// rejected as missing its frontmatter.
pub proof fn lemma_missing_frontmatter(
    name: Seq<char>,
    content: Seq<char>,
    allowed: Seq<Seq<char>>,
)
    ensures
        (forall|i: int| !matches_at(content, frontmatter_delimiter(), i)) ==> parse_model(
            name,
            content,
            allowed,
        ) == Err::<DocModel, ErrorModel>(ErrorModel::MissingFrontmatter),
{
    if forall|i: int| !matches_at(content, frontmatter_delimiter(), i) {
        lemma_find_from(content, frontmatter_delimiter(), 0);
    }
}

/// A document in which the frontmatter delimiter line occurs exactly once —
/// the frontmatter block is the last content — is rejected as missing its
/// body.
pub proof fn lemma_missing_body(
    name: Seq<char>,
    content: Seq<char>,
    allowed: Seq<Seq<char>>,
    i: int,
)
    requires
        matches_at(content, frontmatter_delimiter(), i),
        forall|j: int| matches_at(content, frontmatter_delimiter(), j) ==> j == i,
    ensures
        parse_model(name, content, allowed) == Err::<DocModel, ErrorModel>(ErrorModel::MissingBody),
{
    lemma_find_from(content, frontmatter_delimiter(), 0);
    lemma_find_from(content, frontmatter_delimiter(), i + 4);
}

/// A rejection for an unknown section name enumerates the vocabulary: the
/// allowed set carried in the error is the allowed set given to the parser,
/// and the rejected name is not in it.
pub proof fn lemma_unknown_section_names_vocabulary(
    name: Seq<char>,
    content: Seq<char>,
    allowed: Seq<Seq<char>>,
    n: Seq<char>,
    a: Seq<Seq<char>>,
)
    ensures
        parse_model(name, content, allowed) == Err::<DocModel, ErrorModel>(
            ErrorModel::UnknownSection(n, a),
        ) ==> a == allowed && !allowed.contains(n),
{
    if parse_model(name, content, allowed) == Err::<DocModel, ErrorModel>(
        ErrorModel::UnknownSection(n, a),
    ) {
        let dl = frontmatter_delimiter();
        if let Some(i1) = find_from(content, dl, 0) {
            if let Some(i2) = find_from(content, dl, i1 + 4) {
                let ls = lines_from(content.subrange(i2 + 4, content.len() as int), 0);
                lemma_sections_from_unknown(Seq::empty(), ls, 0, allowed, n, a);
            }
        }
    }
}

/// Within the fold over the body's lines, an unknown-section rejection
/// always carries the vocabulary it was checked against, and a name outside
/// it.
proof fn lemma_sections_from_unknown(
    secs: Seq<(Seq<char>, Seq<char>)>,
    ls: Seq<Seq<char>>,
    i: int,
    allowed: Seq<Seq<char>>,
    n: Seq<char>,
    a: Seq<Seq<char>>,
)
    ensures
        sections_from(secs, ls, i, allowed) == Err::<Seq<(Seq<char>, Seq<char>)>, ErrorModel>(
            ErrorModel::UnknownSection(n, a),
        ) ==> a == allowed && !allowed.contains(n),
    decreases ls.len() - i,
{
    if 0 <= i < ls.len() {
        match section_step(secs, ls[i], allowed) {
            Err(_) => {
            },
            Ok(s2) => {
                lemma_sections_from_unknown(s2, ls, i + 1, allowed, n, a);
            },
        }
    }
}

/// Blank lines before the first heading have no effect: segmentation of the
/// body is segmentation from the first non-blank line on.
pub proof fn lemma_blank_prefix(ls: Seq<Seq<char>>, allowed: Seq<Seq<char>>, k: int)
    requires
        0 <= k <= ls.len(),
        forall|i: int| 0 <= i < k ==> blank(#[trigger] ls[i]),
    ensures
        sections_of(ls, allowed) == sections_from(Seq::empty(), ls, k, allowed),
    decreases k,
{
    if k > 0 {
        lemma_blank_prefix(ls, allowed, k - 1);
        let l = ls[k - 1];
        if l.len() > 0 {
            assert(is_whitespace(l[0]));
        }
        assert(section_step(Seq::empty(), l, allowed) == Ok::<
            Seq<(Seq<char>, Seq<char>)>,
            ErrorModel,
        >(Seq::empty()));
    }
}

/// A document whose body puts non-blank prose before any heading — its
/// first non-blank line does not begin with the heading marker — is
/// rejected for content before the first heading.
pub proof fn lemma_content_before_first_heading(
    ls: Seq<Seq<char>>,
    allowed: Seq<Seq<char>>,
    k: int,
)
    requires
        0 <= k < ls.len(),
        forall|i: int| 0 <= i < k ==> blank(#[trigger] ls[i]),
        !blank(ls[k]),
        ls[k].len() > 0 ==> ls[k][0] != '#',
    ensures
        sections_of(ls, allowed) == Err::<Seq<(Seq<char>, Seq<char>)>, ErrorModel>(
            ErrorModel::ContentBeforeFirstHeading,
        ),
{
    lemma_blank_prefix(ls, allowed, k);
    assert(ls[k].len() > 0);
}

/// A document whose first non-blank body line begins with the heading
/// marker but is not a `## ` heading — a level-1 heading among them — is
/// rejected for an invalid heading.
pub proof fn lemma_invalid_heading_rejected(ls: Seq<Seq<char>>, allowed: Seq<Seq<char>>, k: int)
    requires
        0 <= k < ls.len(),
        forall|i: int| 0 <= i < k ==> blank(#[trigger] ls[i]),
        ls[k].len() > 0,
        ls[k][0] == '#',
        heading_name(ls[k]) is None,
    ensures
        sections_of(ls, allowed) == Err::<Seq<(Seq<char>, Seq<char>)>, ErrorModel>(
            ErrorModel::InvalidHeading,
        ),
{
    lemma_blank_prefix(ls, allowed, k);
}

/// A document whose first non-blank body line is a `## ` heading with a
/// name outside the vocabulary is rejected for that unknown section.
pub proof fn lemma_unknown_first_section(
    ls: Seq<Seq<char>>,
    allowed: Seq<Seq<char>>,
    k: int,
    nm: Seq<char>,
)
    requires
        0 <= k < ls.len(),
        forall|i: int| 0 <= i < k ==> blank(#[trigger] ls[i]),
        heading_name(ls[k]) == Some(nm),
        !allowed.contains(nm),
    ensures
        sections_of(ls, allowed) == Err::<Seq<(Seq<char>, Seq<char>)>, ErrorModel>(
            ErrorModel::UnknownSection(nm, allowed),
        ),
{
    lemma_blank_prefix(ls, allowed, k);
    let l = ls[k];
    assert(l[0] == l.subrange(0, 3)[0]);
}

/// Every section of a parsed document is named from the vocabulary.
pub proof fn lemma_sections_in_vocabulary(
    name: Seq<char>,
    content: Seq<char>,
    allowed: Seq<Seq<char>>,
    d: DocModel,
)
    ensures
        parse_model(name, content, allowed) == Ok::<DocModel, ErrorModel>(d) ==> forall|k: int|
            0 <= k < d.sections.len() ==> allowed.contains(#[trigger] d.sections[k].0),
{
    if parse_model(name, content, allowed) == Ok::<DocModel, ErrorModel>(d) {
        let dl = frontmatter_delimiter();
        if let Some(i1) = find_from(content, dl, 0) {
            if let Some(i2) = find_from(content, dl, i1 + 4) {
                let ls = lines_from(content.subrange(i2 + 4, content.len() as int), 0);
                if let Ok(raw) = sections_of(ls, allowed) {
                    lemma_sections_from_vocabulary(Seq::empty(), ls, 0, allowed, raw);
                    assert(forall|k: int|
                        0 <= k < d.sections.len() ==> #[trigger] d.sections[k].0 == raw[k].0);
                }
            }
        }
    }
}

/// Within the fold over the body's lines, every section name that comes out
/// was either there before or checked against the vocabulary.
proof fn lemma_sections_from_vocabulary(
    secs: Seq<(Seq<char>, Seq<char>)>,
    ls: Seq<Seq<char>>,
    i: int,
    allowed: Seq<Seq<char>>,
    res: Seq<(Seq<char>, Seq<char>)>,
)
    requires
        sections_from(secs, ls, i, allowed) == Ok::<Seq<(Seq<char>, Seq<char>)>, ErrorModel>(res),
        forall|k: int| 0 <= k < secs.len() ==> allowed.contains(#[trigger] secs[k].0),
    ensures
        forall|k: int| 0 <= k < res.len() ==> allowed.contains(#[trigger] res[k].0),
    decreases ls.len() - i,
{
    if 0 <= i < ls.len() {
        match section_step(secs, ls[i], allowed) {
            Err(_) => {
            },
            Ok(s2) => {
                assert(forall|k: int| 0 <= k < s2.len() ==> allowed.contains(#[trigger] s2[k].0));
                lemma_sections_from_vocabulary(s2, ls, i + 1, allowed, res);
            },
        }
    }
}

/// Within the fold over the body's lines, sections are never lost, and a
/// line that begins with the heading marker always adds one.
proof fn lemma_heading_grows(
    secs: Seq<(Seq<char>, Seq<char>)>,
    ls: Seq<Seq<char>>,
    i: int,
    allowed: Seq<Seq<char>>,
    res: Seq<(Seq<char>, Seq<char>)>,
)
    requires
        0 <= i,
        sections_from(secs, ls, i, allowed) == Ok::<Seq<(Seq<char>, Seq<char>)>, ErrorModel>(res),
    ensures
        res.len() >= secs.len(),
        (exists|j: int| i <= j < ls.len() && starts_heading(#[trigger] ls[j])) ==> res.len()
            > secs.len(),
    decreases ls.len() - i,
{
    if i < ls.len() {
        match section_step(secs, ls[i], allowed) {
            Err(_) => {
            },
            Ok(s2) => {
                lemma_heading_grows(s2, ls, i + 1, allowed, res);
                if !starts_heading(ls[i]) {
                    if exists|j: int| i <= j < ls.len() && starts_heading(#[trigger] ls[j]) {
                        let j = choose|j: int| i <= j < ls.len() && starts_heading(#[trigger] ls[j]);
                        assert(i + 1 <= j < ls.len() && starts_heading(ls[j]));
                    }
                }
            },
        }
    }
}

/// Whether a line begins with the heading marker.
pub open spec fn starts_heading(l: Seq<char>) -> bool {
    l.len() > 0 && l[0] == '#'
}

/// A body that segments into no sections declares no heading at all: where
/// the fold yields an empty section list, no line begins with the heading
/// marker.
pub proof fn lemma_no_sections_means_no_headings(ls: Seq<Seq<char>>, allowed: Seq<Seq<char>>)
    ensures
        (sections_of(ls, allowed) matches Ok(res) && res.len() == 0) ==> forall|j: int|
            0 <= j < ls.len() ==> !starts_heading(#[trigger] ls[j]),
{
    if let Ok(res) = sections_of(ls, allowed) {
        if res.len() == 0 {
            lemma_heading_grows(Seq::empty(), ls, 0, allowed, res);
        }
    }
}

/// Parsing has no hidden state: what a parse yields is a function of the
/// identifier, the content and the vocabulary alone, so two parses of the
/// same document agree.
pub proof fn lemma_parse_deterministic(
    name: Seq<char>,
    content: Seq<char>,
    allowed: Seq<Seq<char>>,
    r1: DocModel,
    r2: DocModel,
)
    ensures
        parse_model(name, content, allowed) == Ok::<DocModel, ErrorModel>(r1) && parse_model(
            name,
            content,
            allowed,
        ) == Ok::<DocModel, ErrorModel>(r2) ==> r1 == r2,
{
}

} // verus!
