//! The document parser: splits a document into frontmatter and body,
//! decodes the frontmatter fields, and segments the body into named
//! sections drawn from a closed vocabulary.

use vstd::prelude::*;

verus! {

use crate::text::{
    blank, blank_line, chars_eq, chars_of, find_from, lines_from, lines_model, matches_at,
    split_lines, string_of, subvec, trim_chars, trimmed,
};

/// A parsed target-information document.
#[derive(Debug, PartialEq)]
pub struct ParsedTargetInfoFile {
    pub pattern: String,
    pub tier: Option<String>,
    pub maintainers: Vec<String>,
    pub sections: Vec<(String, String)>,
}

/// Why a document was rejected.
#[derive(Debug, PartialEq)]
pub enum ParseError {
    /// The content holds fewer frontmatter delimiter lines than a document needs.
    MissingFrontmatter,
    /// Nothing follows the frontmatter block, not even an empty body.
    MissingBody,
    /// The frontmatter block did not decode; the decoder's message is kept.
    InvalidFrontmatter(String),
    /// A heading line of the body is not a `## ` heading.
    InvalidHeading,
    /// A heading names a section outside the vocabulary; the rejected name
    /// and the allowed set are kept.
    UnknownSection(String, Vec<String>),
    /// A non-blank line appears before the first heading.
    ContentBeforeFirstHeading,
}

/// Mathematical model of a parsed document.
#[verifier::ext_equal]
pub struct DocModel {
    pub pattern: Seq<char>,
    pub tier: Option<Seq<char>>,
    pub maintainers: Seq<Seq<char>>,
    pub sections: Seq<(Seq<char>, Seq<char>)>,
}

/// Mathematical model of a rejection.
#[verifier::ext_equal]
pub enum ErrorModel {
    MissingFrontmatter,
    MissingBody,
    InvalidFrontmatter(Seq<char>),
    InvalidHeading,
    UnknownSection(Seq<char>, Seq<Seq<char>>),
    ContentBeforeFirstHeading,
}

/// The view of each string in a sequence of strings.
pub open spec fn string_views(v: Seq<String>) -> Seq<Seq<char>> {
    v.map_values(|s: String| s@)
}

/// The view of an optional string.
pub open spec fn opt_string_view(o: Option<String>) -> Option<Seq<char>> {
    match o {
        Some(s) => Some(s@),
        None => None,
    }
}

/// The view of each name-body pair in a section list under construction.
pub open spec fn raw_sections_model(v: Seq<(Vec<char>, Vec<char>)>) -> Seq<(Seq<char>, Seq<char>)> {
    v.map_values(|p: (Vec<char>, Vec<char>)| (p.0@, p.1@))
}

/// The view of each name-body pair in a finished section list.
pub open spec fn sections_model(v: Seq<(String, String)>) -> Seq<(Seq<char>, Seq<char>)> {
    v.map_values(|p: (String, String)| (p.0@, p.1@))
}

impl View for ParsedTargetInfoFile {
    type V = DocModel;

    open spec fn view(&self) -> DocModel {
        DocModel {
            pattern: self.pattern@,
            tier: opt_string_view(self.tier),
            maintainers: string_views(self.maintainers@),
            sections: sections_model(self.sections@),
        }
    }
}

impl View for ParseError {
    type V = ErrorModel;

    open spec fn view(&self) -> ErrorModel {
        match self {
            ParseError::MissingFrontmatter => ErrorModel::MissingFrontmatter,
            ParseError::MissingBody => ErrorModel::MissingBody,
            ParseError::InvalidFrontmatter(m) => ErrorModel::InvalidFrontmatter(m@),
            ParseError::InvalidHeading => ErrorModel::InvalidHeading,
            ParseError::UnknownSection(n, a) => ErrorModel::UnknownSection(n@, string_views(a@)),
            ParseError::ContentBeforeFirstHeading => ErrorModel::ContentBeforeFirstHeading,
        }
    }
}

/// The characters of the line that delimits the frontmatter block: `---`
/// followed by a line break.
pub open spec fn frontmatter_delimiter() -> Seq<char> {
    seq!['-', '-', '-', '\n']
}

/// The characters that introduce a section heading.
pub open spec fn heading_prefix() -> Seq<char> {
    seq!['#', '#', ' ']
}

/// The name a heading line declares, when the line is a `## ` heading.
pub open spec fn heading_name(l: Seq<char>) -> Option<Seq<char>> {
    if l.len() >= 3 && l.subrange(0, 3) == heading_prefix() {
        Some(l.subrange(3, l.len() as int))
    } else {
        None
    }
}

/// What decoding the frontmatter block yields: the `tier` and `maintainers`
/// fields on success, or the decoder's message on failure. The outcome is a
/// function of the block's text alone.
pub uninterp spec fn header_fields(s: Seq<char>) -> Result<
    (Option<Seq<char>>, Seq<Seq<char>>),
    Seq<char>,
>;

/// Relies on `serde_yaml::from_str` and `serde_yaml::from_value`: the block
/// decodes as a YAML mapping (or as nothing at all, which is an empty
/// mapping); `tier` is an optional string, absent or null meaning none;
/// `maintainers` is a sequence of strings, absent meaning empty; other keys
/// are ignored; a block of any other shape, or a field of the wrong shape,
/// fails with the decoder's message.
#[verifier::external_body]
fn decode_header(s: &str) -> (r: Result<(Option<String>, Vec<String>), String>)
    ensures
        match r {
            Ok(h) => header_fields(s@) == Ok::<(Option<Seq<char>>, Seq<Seq<char>>), Seq<char>>(
                (opt_string_view(h.0), string_views(h.1@)),
            ),
            Err(m) => header_fields(s@) == Err::<(Option<Seq<char>>, Seq<Seq<char>>), Seq<char>>(
                m@,
            ),
        },
{
    let doc: Option<serde_yaml::Mapping> = serde_yaml::from_str(s).map_err(|e| e.to_string())?;
    let doc = doc.unwrap_or_default();
    let tier_value = doc.get("tier").cloned().unwrap_or(serde_yaml::Value::Null);
    let tier: Option<String> = serde_yaml::from_value(tier_value).map_err(|e| e.to_string())?;
    let m_value = doc.get("maintainers").cloned().unwrap_or(
        serde_yaml::Value::Sequence(Vec::new()),
    );
    let maintainers: Vec<String> = serde_yaml::from_value(m_value).map_err(|e| e.to_string())?;
    Ok((tier, maintainers))
}

/// One line's effect on the sections built so far: a `## ` heading opens a
/// section from the vocabulary, any other `#` line is rejected, and an
/// ordinary line joins the open section, may be skipped while blank before
/// the first heading, and is rejected otherwise.
pub open spec fn section_step(
    secs: Seq<(Seq<char>, Seq<char>)>,
    l: Seq<char>,
    allowed: Seq<Seq<char>>,
) -> Result<Seq<(Seq<char>, Seq<char>)>, ErrorModel> {
    if l.len() > 0 && l[0] == '#' {
        match heading_name(l) {
            Some(name) => if allowed.contains(name) {
                Ok(secs.push((name, Seq::empty())))
            } else {
                Err(ErrorModel::UnknownSection(name, allowed))
            },
            None => Err(ErrorModel::InvalidHeading),
        }
    } else if secs.len() > 0 {
        let k = (secs.len() - 1) as int;
        Ok(secs.update(k, (secs[k].0, secs[k].1 + l + seq!['\n'])))
    } else if blank(l) {
        Ok(secs)
    } else {
        Err(ErrorModel::ContentBeforeFirstHeading)
    }
}

/// The sections remaining after folding `section_step` over the lines from
/// index `i` on, starting from the sections in `secs`.
pub open spec fn sections_from(
    secs: Seq<(Seq<char>, Seq<char>)>,
    ls: Seq<Seq<char>>,
    i: int,
    allowed: Seq<Seq<char>>,
) -> Result<Seq<(Seq<char>, Seq<char>)>, ErrorModel>
    decreases ls.len() - i,
{
    if i < 0 || i >= ls.len() {
        Ok(secs)
    } else {
        match section_step(secs, ls[i], allowed) {
            Err(e) => Err(e),
            Ok(s2) => sections_from(s2, ls, i + 1, allowed),
        }
    }
}

/// The sections the body's lines declare, with untrimmed bodies.
pub open spec fn sections_of(ls: Seq<Seq<char>>, allowed: Seq<Seq<char>>) -> Result<
    Seq<(Seq<char>, Seq<char>)>,
    ErrorModel,
> {
    sections_from(Seq::empty(), ls, 0, allowed)
}

/// What parsing an entire document yields: the frontmatter block is the text
/// between the first two delimiter occurrences, the body is everything after
/// the second, the frontmatter decodes into the header fields, and the body's
/// lines are segmented into sections whose bodies are then trimmed.
pub open spec fn parse_model(
    name: Seq<char>,
    content: Seq<char>,
    allowed: Seq<Seq<char>>,
) -> Result<DocModel, ErrorModel> {
    let d = frontmatter_delimiter();
    match find_from(content, d, 0) {
        None => Err(ErrorModel::MissingFrontmatter),
        Some(i1) => match find_from(content, d, i1 + 4) {
            None => Err(ErrorModel::MissingBody),
            Some(i2) => {
                let header = content.subrange(i1 + 4, i2);
                let body = content.subrange(i2 + 4, content.len() as int);
                match header_fields(header) {
                    Err(m) => Err(ErrorModel::InvalidFrontmatter(m)),
                    Ok(h) => match sections_of(lines_from(body, 0), allowed) {
                        Err(e) => Err(e),
                        Ok(secs) => Ok(
                            DocModel {
                                pattern: name,
                                tier: h.0,
                                maintainers: h.1,
                                sections: secs.map_values(
                                    |p: (Seq<char>, Seq<char>)| (p.0, trimmed(p.1)),
                                ),
                            },
                        ),
                    },
                }
            },
        },
    }
}

/// Whether `r` is exactly what `parse_model` yields on these inputs.
pub open spec fn parse_result_matches(
    r: Result<ParsedTargetInfoFile, ParseError>,
    name: Seq<char>,
    content: Seq<char>,
    allowed: Seq<Seq<char>>,
) -> bool {
    match r {
        Ok(doc) => parse_model(name, content, allowed) == Ok::<DocModel, ErrorModel>(doc@),
        Err(e) => parse_model(name, content, allowed) == Err::<DocModel, ErrorModel>(e@),
    }
}

/// Finds the first frontmatter delimiter at or after `from`.
fn find_delimiter(s: &Vec<char>, from: usize) -> (r: Option<usize>)
    requires
        from <= s@.len(),
    ensures
        match r {
            Some(i) => find_from(s@, frontmatter_delimiter(), from as int) == Some(i as int)
                && from <= i && i + 4 <= s@.len(),
            None => find_from(s@, frontmatter_delimiter(), from as int) is None,
        },
{
    let n = s.len();
    let mut i = from;
    loop
        invariant
            from <= i <= n,
            n == s@.len(),
            find_from(s@, frontmatter_delimiter(), from as int) == find_from(
                s@,
                frontmatter_delimiter(),
                i as int,
            ),
        decreases n - i,
    {
        if n - i < 4 {
            proof {
                assert(find_from(s@, frontmatter_delimiter(), i as int) is None);
            }
            return None;
        }
        if s[i] == '-' && s[i + 1] == '-' && s[i + 2] == '-' && s[i + 3] == '\n' {
            proof {
                assert(s@.subrange(i as int, i as int + 4) =~= frontmatter_delimiter());
                assert(matches_at(s@, frontmatter_delimiter(), i as int));
            }
            return Some(i);
        }
        proof {
            let d = frontmatter_delimiter();
            if matches_at(s@, d, i as int) {
                assert(s@[i as int] == s@.subrange(i as int, i as int + 4)[0]);
                assert(s@[i as int + 1] == s@.subrange(i as int, i as int + 4)[1]);
                assert(s@[i as int + 2] == s@.subrange(i as int, i as int + 4)[2]);
                assert(s@[i as int + 3] == s@.subrange(i as int, i as int + 4)[3]);
            }
            assert(find_from(s@, d, i as int) == find_from(s@, d, i + 1));
        }
        i = i + 1;
    }
}

/// Whether the vocabulary holds this section name.
fn vocab_contains(allowed: &Vec<String>, name: &Vec<char>) -> (r: bool)
    ensures
        r == string_views(allowed@).contains(name@),
{
    let mut k: usize = 0;
    while k < allowed.len()
        invariant
            k <= allowed@.len(),
            forall|j: int| 0 <= j < k ==> string_views(allowed@)[j] != name@,
        decreases allowed@.len() - k,
    {
        let a = chars_of(allowed[k].as_str());
        if chars_eq(&a, name) {
            proof {
                assert(string_views(allowed@)[k as int] == name@);
            }
            return true;
        }
        k = k + 1;
    }
    proof {
        assert(forall|j: int|
            0 <= j < string_views(allowed@).len() ==> string_views(allowed@)[j] != name@);
    }
    false
}

/// Copies the vocabulary, so that a rejection can enumerate it.
fn clone_vocab(allowed: &Vec<String>) -> (r: Vec<String>)
    ensures
        string_views(r@) == string_views(allowed@),
{
    let mut r: Vec<String> = Vec::new();
    let mut k: usize = 0;
    while k < allowed.len()
        invariant
            k <= allowed@.len(),
            r@.len() == k,
            forall|j: int| 0 <= j < k ==> r@[j]@ == allowed@[j]@,
        decreases allowed@.len() - k,
    {
        r.push(allowed[k].clone());
        k = k + 1;
    }
    proof {
        assert(string_views(r@) =~~= string_views(allowed@));
    }
    r
}

/// Parses one document: `name` is its logical identifier, `content` its
/// text, and `allowed` the vocabulary of section names. Yields exactly what
/// `parse_model` says: the document on success, and the first failure
/// otherwise.
#[verifier::loop_isolation(false)]
pub fn parse_file(name: &str, content: &str, allowed: &Vec<String>) -> (r: Result<
    ParsedTargetInfoFile,
    ParseError,
>)
    ensures
        parse_result_matches(r, name@, content@, string_views(allowed@)),
{
    let ghost vocab = string_views(allowed@);
    let cs = chars_of(content);
    let content_len = cs.len();
    let i1 = match find_delimiter(&cs, 0) {
        None => {
            return Err(ParseError::MissingFrontmatter);
        },
        Some(i) => i,
    };
    let i2 = match find_delimiter(&cs, i1 + 4) {
        None => {
            return Err(ParseError::MissingBody);
        },
        Some(i) => i,
    };
    let header_chars = subvec(&cs, i1 + 4, i2);
    let header_str = string_of(&header_chars);
    let (tier, maintainers) = match decode_header(header_str.as_str()) {
        Err(m) => {
            return Err(ParseError::InvalidFrontmatter(m));
        },
        Ok(h) => h,
    };
    let body = subvec(&cs, i2 + 4, content_len);
    let lines = split_lines(&body);
    let ghost ls = lines_from(content@.subrange(i2 + 4, content@.len() as int), 0);
    proof {
        assert(ls == lines_model(lines@));
    }
    let mut secs: Vec<(Vec<char>, Vec<char>)> = Vec::new();
    proof {
        assert(raw_sections_model(secs@) =~= Seq::<(Seq<char>, Seq<char>)>::empty());
    }
    let mut li: usize = 0;
    while li < lines.len()
        invariant
            li <= lines@.len(),
            ls == lines_model(lines@),
            vocab == string_views(allowed@),
            sections_of(ls, vocab) == sections_from(
                raw_sections_model(secs@),
                ls,
                li as int,
                vocab,
            ),
        decreases lines@.len() - li,
    {
        let ghost pre = raw_sections_model(secs@);
        let ghost l = ls[li as int];
        proof {
            assert(ls.len() == lines@.len());
            assert(pre.len() == secs@.len());
            assert(l == lines@[li as int]@);
        }
        let line_len = lines[li].len();
        if line_len > 0 && lines[li][0] == '#' {
            if line_len >= 3 && lines[li][1] == '#' && lines[li][2] == ' ' {
                proof {
                    assert(l.subrange(0, 3) =~= heading_prefix());
                    assert(heading_name(l) == Some(l.subrange(3, l.len() as int)));
                }
                let nm = subvec(&lines[li], 3, line_len);
                let ghost nmv = nm@;
                if vocab_contains(allowed, &nm) {
                    secs.push((nm, Vec::new()));
                    proof {
                        assert(raw_sections_model(secs@) =~~= pre.push(
                            (nmv, Seq::<char>::empty()),
                        ));
                        assert(section_step(pre, l, vocab) == Ok::<
                            Seq<(Seq<char>, Seq<char>)>,
                            ErrorModel,
                        >(raw_sections_model(secs@)));
                    }
                } else {
                    let rejected = string_of(&nm);
                    let vocabulary = clone_vocab(allowed);
                    proof {
                        assert(section_step(pre, l, vocab) == Err::<
                            Seq<(Seq<char>, Seq<char>)>,
                            ErrorModel,
                        >(ErrorModel::UnknownSection(nmv, vocab)));
                        assert(sections_from(pre, ls, li as int, vocab) == Err::<
                            Seq<(Seq<char>, Seq<char>)>,
                            ErrorModel,
                        >(ErrorModel::UnknownSection(nmv, vocab)));
                        assert(sections_of(ls, vocab) == Err::<
                            Seq<(Seq<char>, Seq<char>)>,
                            ErrorModel,
                        >(ErrorModel::UnknownSection(nmv, vocab)));
                        assert(parse_model(name@, content@, vocab) == Err::<DocModel, ErrorModel>(
                            ErrorModel::UnknownSection(nmv, vocab),
                        ));
                    }
                    return Err(ParseError::UnknownSection(rejected, vocabulary));
                }
            } else {
                proof {
                    if l.len() >= 3 && l.subrange(0, 3) == heading_prefix() {
                        assert(l[1] == l.subrange(0, 3)[1]);
                        assert(l[2] == l.subrange(0, 3)[2]);
                        assert(false);
                    }
                    assert(heading_name(l) is None);
                    assert(section_step(pre, l, vocab) == Err::<
                        Seq<(Seq<char>, Seq<char>)>,
                        ErrorModel,
                    >(ErrorModel::InvalidHeading));
                    assert(sections_from(pre, ls, li as int, vocab) == Err::<
                        Seq<(Seq<char>, Seq<char>)>,
                        ErrorModel,
                    >(ErrorModel::InvalidHeading));
                    assert(sections_of(ls, vocab) == Err::<
                        Seq<(Seq<char>, Seq<char>)>,
                        ErrorModel,
                    >(ErrorModel::InvalidHeading));
                    assert(parse_model(name@, content@, vocab) == Err::<DocModel, ErrorModel>(
                        ErrorModel::InvalidHeading,
                    ));
                }
                return Err(ParseError::InvalidHeading);
            }
        } else if secs.len() > 0 {
            let mut last = match secs.pop() {
                Some(p) => p,
                None => unreached(),
            };
            let ghost name0 = last.0@;
            let ghost body0 = last.1@;
            proof {
                assert(pre[pre.len() - 1] == (name0, body0));
                assert(raw_sections_model(secs@) =~~= pre.subrange(0, pre.len() - 1));
            }
            let mut j: usize = 0;
            while j < line_len
                invariant
                    j <= line_len,
                    line_len == l.len(),
                    l == lines@[li as int]@,
                    li < lines@.len(),
                    last.0@ == name0,
                    last.1@ == body0 + l.subrange(0, j as int),
                decreases line_len - j,
            {
                last.1.push(lines[li][j]);
                j = j + 1;
                proof {
                    assert(last.1@ =~= body0 + l.subrange(0, j as int));
                }
            }
            last.1.push('\n');
            proof {
                assert(last.1@ =~= body0 + l + seq!['\n']);
            }
            let ghost appended = last.1@;
            secs.push(last);
            proof {
                assert(secs@.len() == pre.len());
                assert(raw_sections_model(secs@).len() == pre.len());
                assert(forall|j: int|
                    0 <= j < pre.len() - 1 ==> raw_sections_model(secs@)[j] == pre[j]);
                assert(raw_sections_model(secs@)[pre.len() - 1] == (name0, appended));
                assert(raw_sections_model(secs@) =~~= pre.update(
                    pre.len() - 1,
                    (name0, body0 + l + seq!['\n']),
                ));
                assert(section_step(pre, l, vocab) == Ok::<
                    Seq<(Seq<char>, Seq<char>)>,
                    ErrorModel,
                >(raw_sections_model(secs@)));
            }
        } else if blank_line(&lines[li]) {
            proof {
                assert(section_step(pre, l, vocab) == Ok::<
                    Seq<(Seq<char>, Seq<char>)>,
                    ErrorModel,
                >(pre));
            }
        } else {
            proof {
                assert(section_step(pre, l, vocab) == Err::<
                    Seq<(Seq<char>, Seq<char>)>,
                    ErrorModel,
                >(ErrorModel::ContentBeforeFirstHeading));
                assert(sections_from(pre, ls, li as int, vocab) == Err::<
                    Seq<(Seq<char>, Seq<char>)>,
                    ErrorModel,
                >(ErrorModel::ContentBeforeFirstHeading));
                assert(sections_of(ls, vocab) == Err::<
                    Seq<(Seq<char>, Seq<char>)>,
                    ErrorModel,
                >(ErrorModel::ContentBeforeFirstHeading));
                assert(parse_model(name@, content@, vocab) == Err::<DocModel, ErrorModel>(
                    ErrorModel::ContentBeforeFirstHeading,
                ));
            }
            return Err(ParseError::ContentBeforeFirstHeading);
        }
        li = li + 1;
    }
    let ghost final_raw = raw_sections_model(secs@);
    proof {
        assert(sections_of(ls, vocab) == Ok::<Seq<(Seq<char>, Seq<char>)>, ErrorModel>(final_raw));
    }
    let mut out: Vec<(String, String)> = Vec::new();
    let mut k: usize = 0;
    while k < secs.len()
        invariant
            k <= secs@.len(),
            final_raw == raw_sections_model(secs@),
            out@.len() == k,
            forall|j: int|
                0 <= j < k ==> out@[j].0@ == final_raw[j].0 && out@[j].1@ == trimmed(
                    final_raw[j].1,
                ),
        decreases secs@.len() - k,
    {
        proof {
            assert(final_raw[k as int] == (secs@[k as int].0@, secs@[k as int].1@));
        }
        let sec_name = string_of(&secs[k].0);
        let sec_trimmed = trim_chars(&secs[k].1);
        let sec_body = string_of(&sec_trimmed);
        out.push((sec_name, sec_body));
        k = k + 1;
    }
    let doc = ParsedTargetInfoFile {
        pattern: name.to_owned(),
        tier,
        maintainers,
        sections: out,
    };
    proof {
        assert(doc@.sections =~~= final_raw.map_values(
            |p: (Seq<char>, Seq<char>)| (p.0, trimmed(p.1)),
        ));
        assert(parse_model(name@, content@, vocab) == Ok::<DocModel, ErrorModel>(doc@)) by {
            assert(parse_model(name@, content@, vocab) matches Ok(m) && m =~~= doc@);
        }
    }
    Ok(doc)
}

/// The logical identifier a file name yields: the name with its `.md`
/// extension removed, or nothing when the extension is absent.
pub open spec fn identifier_of(file_name: Seq<char>) -> Option<Seq<char>> {
    if file_name.len() >= 3 && file_name.subrange(
        file_name.len() - 3,
        file_name.len() as int,
    ) == md_extension() {
        Some(file_name.subrange(0, file_name.len() - 3))
    } else {
        None
    }
}

/// The characters of the file extension every document file must carry.
pub open spec fn md_extension() -> Seq<char> {
    seq!['.', 'm', 'd']
}

/// Derives the logical identifier from a file name, as `identifier_of`
/// says: the name without its `.md` extension, or nothing when the
/// extension is absent.
pub fn strip_md_suffix(file_name: &str) -> (r: Option<String>)
    ensures
        match r {
            Some(id) => identifier_of(file_name@) == Some(id@),
            None => identifier_of(file_name@) is None,
        },
{
    let cs = chars_of(file_name);
    let n = cs.len();
    if n >= 3 && cs[n - 3] == '.' && cs[n - 2] == 'm' && cs[n - 1] == 'd' {
        proof {
            assert(file_name@.subrange(n - 3, n as int) =~= md_extension());
        }
        let id = subvec(&cs, 0, n - 3);
        Some(string_of(&id))
    } else {
        proof {
            if file_name@.len() >= 3 && file_name@.subrange(n - 3, n as int) == md_extension() {
                assert(file_name@[n - 3] == file_name@.subrange(n - 3, n as int)[0]);
                assert(file_name@[n - 2] == file_name@.subrange(n - 3, n as int)[1]);
                assert(file_name@[n - 1] == file_name@.subrange(n - 3, n as int)[2]);
                assert(false);
            }
        }
        None
    }
}

} // verus!
