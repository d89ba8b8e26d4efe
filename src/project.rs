//! Checks on the values given when a new project is created.

use vstd::prelude::*;

verus! {

/// The characters of `s`, in order.
fn chars_of(s: &str) -> (r: Vec<char>)
    ensures
        r@ == s@,
{
    let mut v: Vec<char> = Vec::new();
    for c in it: s.chars()
        invariant
            v@ == it.seq().take(it.index() as int),
    {
        v.push(c);
    }
    v
}

/// ASCII punctuation: the printable ASCII characters that are neither
/// letters, digits nor space.
pub open spec fn is_ascii_punctuation(c: char) -> bool {
    ('!' <= c && c <= '/') || (':' <= c && c <= '@') || ('[' <= c && c <= '`') || ('{' <= c
        && c <= '~')
}

/// Punctuation that may not stand in a list of names: all of it but `-`,
/// `_` and the separating `,`.
pub open spec fn is_forbidden(c: char) -> bool {
    c != '-' && c != '_' && c != ',' && is_ascii_punctuation(c)
}

/// `k` is the first position of `s` that holds forbidden punctuation.
pub open spec fn first_forbidden_at(s: Seq<char>, k: int) -> bool {
    &&& 0 <= k < s.len()
    &&& is_forbidden(s[k])
    &&& forall|j: int| 0 <= j < k ==> !is_forbidden(#[trigger] s[j])
}

/// The pieces of `s` between commas, as `str::split(',')` yields them: one
/// piece more than there are commas, empty pieces kept.
pub open spec fn split_commas(s: Seq<char>) -> Seq<Seq<char>>
    decreases s.len(),
{
    if s.len() == 0 {
        seq![seq![]]
    } else {
        let r = split_commas(s.drop_last());
        if s.last() == ',' {
            r.push(seq![])
        } else {
            r.update(r.len() - 1, r.last().push(s.last()))
        }
    }
}

/// The decimal digits of `n`, without leading zeros.
pub open spec fn decimal(n: nat) -> Seq<char>
    decreases n,
{
    let d = seq!['0', '1', '2', '3', '4', '5', '6', '7', '8', '9'][(n % 10) as int];
    if n < 10 {
        seq![d]
    } else {
        decimal(n / 10).push(d)
    }
}

/// What `str::trim` leaves of a string.
pub uninterp spec fn trimmed(s: Seq<char>) -> Seq<char>;

/// Relies on `str::trim`: the string without leading and trailing white
/// space, which depends on the characters alone.
#[verifier::external_body]
fn trim_to_string(s: &str) -> (r: String)
    ensures
        r@ == trimmed(s@),
{
    s.trim().to_string()
}

/// Relies on `String::from_iter` over characters: a string of exactly these
/// characters.
#[verifier::external_body]
fn string_from_chars(chars: &Vec<char>) -> (r: String)
    ensures
        r@ == chars@,
{
    chars.iter().collect::<String>()
}

/// Relies on `format!`: the message for forbidden punctuation `c` at
/// character position `pos`.
#[verifier::external_body]
fn punctuation_error(c: char, pos: usize) -> (r: String)
    ensures
        r@ == punctuation_error_text(c, pos as nat),
{
    format!(
        "Unexpected punctuation '{c}' found at column {pos}.\n    Lists are comma separated but names should not contain punctuation!"
    )
}

/// The message that rejects a list for punctuation `c` at position `pos`.
pub open spec fn punctuation_error_text(c: char, pos: nat) -> Seq<char> {
    "Unexpected punctuation '"@ + seq![c] + "' found at column "@ + decimal(pos)
        + ".\n    Lists are comma separated but names should not contain punctuation!"@
}

fn is_forbidden_char(c: char) -> (r: bool)
    ensures
        r == is_forbidden(c),
{
    c != '-' && c != '_' && c != ',' && (('!' <= c && c <= '/') || (':' <= c && c <= '@') || ('['
        <= c && c <= '`') || ('{' <= c && c <= '~'))
}

/// Parses a comma-separated list of labels, trimming each.
///
/// The list is refused at the first punctuation other than `-`, `_` and
/// `,`; the error names it and its position, counted in characters from 0.
pub fn clap_parse_list(input: &str) -> (r: Result<Vec<String>, String>)
    ensures
        match r {
            Ok(labels) => {
                &&& forall|k: int| 0 <= k < input@.len() ==> !is_forbidden(#[trigger] input@[k])
                &&& labels@.len() == split_commas(input@).len()
                &&& forall|j: int|
                    0 <= j < labels@.len() ==> (#[trigger] labels@[j])@ == trimmed(
                        split_commas(input@)[j],
                    )
            },
            Err(msg) => exists|k: int|
                first_forbidden_at(input@, k) && msg@ == punctuation_error_text(
                    input@[k],
                    k as nat,
                ),
        },
{
    let chars = chars_of(input);
    let mut i: usize = 0;
    while i < chars.len()
        invariant
            chars@ == input@,
            i <= chars@.len(),
            forall|j: int| 0 <= j < i ==> !is_forbidden(#[trigger] chars@[j]),
        decreases chars@.len() - i,
    {
        if is_forbidden_char(chars[i]) {
            let msg = punctuation_error(chars[i], i);
            assert(first_forbidden_at(input@, i as int));
            return Err(msg);
        }
        i = i + 1;
    }
    let mut labels: Vec<String> = Vec::new();
    let mut piece: Vec<char> = Vec::new();
    let mut i: usize = 0;
    while i < chars.len()
        invariant
            chars@ == input@,
            i <= chars@.len(),
            split_commas(chars@.subrange(0, i as int)).len() == labels@.len() + 1,
            piece@ == split_commas(chars@.subrange(0, i as int)).last(),
            forall|j: int|
                0 <= j < labels@.len() ==> (#[trigger] labels@[j])@ == trimmed(
                    split_commas(chars@.subrange(0, i as int))[j],
                ),
        decreases chars@.len() - i,
    {
        let ghost before = split_commas(chars@.subrange(0, i as int));
        assert(chars@.subrange(0, i as int + 1).drop_last() == chars@.subrange(0, i as int));
        assert(chars@.subrange(0, i as int + 1).last() == chars@[i as int]);
        if chars[i] == ',' {
            let text = string_from_chars(&piece);
            let label = trim_to_string(text.as_str());
            labels.push(label);
            piece = Vec::new();
        } else {
            piece.push(chars[i]);
        }
        i = i + 1;
    }
    assert(chars@.subrange(0, chars@.len() as int) == input@);
    let text = string_from_chars(&piece);
    let label = trim_to_string(text.as_str());
    labels.push(label);
    Ok(labels)
}

/// The kind of directory that holds a new project's sources.
#[derive(PartialEq, Eq, Structural, Clone, Copy, Debug)]
pub enum SourceDirType {
    Src,
    Lua,
}

impl SourceDirType {
    /// The directory's name.
    pub open spec fn dir_name(self) -> Seq<char> {
        match self {
            SourceDirType::Src => "src"@,
            SourceDirType::Lua => "lua"@,
        }
    }

    /// The directory's name, as it is written out.
    pub fn as_str(&self) -> (r: &'static str)
        ensures
            r@ == self.dir_name(),
    {
        match self {
            SourceDirType::Src => "src",
            SourceDirType::Lua => "lua",
        }
    }
}

#[verifier::external_type_specification]
#[verifier::external_body]
pub struct ExLicenseId(spdx::LicenseId);

/// Whether the SPDX list knows a license by this name, also when it is
/// written loosely (`apache 2.0`, `mit`).
pub uninterp spec fn license_recognised(name: Seq<char>) -> bool;

/// Relies on `spdx::imprecise_license_id`: it finds a license, or none,
/// from the name alone.
#[verifier::external_body]
fn imprecise_license_id(name: &str) -> (r: Option<spdx::LicenseId>)
    ensures
        r is Some <==> license_recognised(name@),
{
    spdx::imprecise_license_id(name).map(|found| found.0)
}

/// Relies on `format!`: the message that refuses a license name.
#[verifier::external_body]
fn license_error(name: &str) -> (r: String)
    ensures
        r@ == license_error_text(name@),
{
    format!("unable to identify license {name}, please try again!")
}

pub open spec fn license_error_text(name: Seq<char>) -> Seq<char> {
    "unable to identify license "@ + name + ", please try again!"@
}

/// The answer that stands for no license at all.
pub open spec fn no_license() -> Seq<char> {
    seq!['n', 'o', 'n', 'e']
}

fn is_no_license(input: &str) -> (r: bool)
    ensures
        r == (input@ == no_license()),
{
    let chars = chars_of(input);
    if chars.len() != 4 {
        return false;
    }
    let r = chars[0] == 'n' && chars[1] == 'o' && chars[2] == 'n' && chars[3] == 'e';
    assert(r ==> chars@ =~= no_license());
    r
}

/// Whether a license answer is acceptable: `none`, or a license name that
/// is recognised.
pub fn validate_license(input: &str) -> (r: bool)
    ensures
        r == (input@ == no_license() || license_recognised(input@)),
{
    if is_no_license(input) {
        return true;
    }
    imprecise_license_id(input).is_some()
}

/// The license of a name that is known to be recognised.
fn parse_license_unchecked(input: &str) -> (r: spdx::LicenseId)
    requires
        license_recognised(input@),
{
    match imprecise_license_id(input) {
        Some(id) => id,
        None => {
            assert(false);
            unreached()
        },
    }
}

/// Parses a license given on the command line.
///
/// A name that is not recognised is refused with a message that repeats
/// it; so is `none`, unless a license is known by that name.
pub fn clap_parse_license(s: &str) -> (r: Result<spdx::LicenseId, String>)
    ensures
        r is Ok <==> license_recognised(s@),
        match r {
            Ok(_) => true,
            Err(msg) => msg@ == license_error_text(s@),
        },
{
    match imprecise_license_id(s) {
        Some(id) => Ok(id),
        None => Err(license_error(s)),
    }
}

/// Reads an answer to the license question: `Some(None)` for `none`,
/// `Some(Some(id))` for a recognised name, and `None` for an answer that
/// cannot be accepted.
pub fn license_from_answer(input: &str) -> (r: Option<Option<spdx::LicenseId>>)
    ensures
        input@ == no_license() ==> r == Some(None::<spdx::LicenseId>),
        input@ != no_license() ==> (r is Some <==> license_recognised(input@)),
        input@ != no_license() && r is Some ==> r->0 is Some,
{
    if !validate_license(input) {
        None
    } else if is_no_license(input) {
        Some(None)
    } else {
        Some(Some(parse_license_unchecked(input)))
    }
}

/// The labels, each in double quotes, separated by `, `.
pub open spec fn quoted_list(labels: Seq<Seq<char>>) -> Seq<char>
    decreases labels.len(),
{
    if labels.len() == 0 {
        seq![]
    } else if labels.len() == 1 {
        "\""@ + labels[0] + "\""@
    } else {
        quoted_list(labels.drop_last()) + ", \""@ + labels.last() + "\""@
    }
}

/// The license line of the manifest, empty where there is no license.
pub open spec fn license_line(license: Option<Seq<char>>) -> Seq<char> {
    match license {
        Some(name) => "license = \""@ + name + "\""@,
        None => seq![],
    }
}

/// The manifest of a new project.
pub open spec fn project_toml_text(
    name: Seq<char>,
    lua_version_req: Seq<char>,
    summary: Seq<char>,
    maintainer: Seq<char>,
    labels: Seq<Seq<char>>,
    license: Option<Seq<char>>,
    main: SourceDirType,
) -> Seq<char> {
    "package = \""@ + name + "\"\nversion = \"0.1.0\"\nlua = \""@ + lua_version_req
        + "\"\n\n[description]\nsummary = \""@ + summary + "\"\nmaintainer = \""@ + maintainer
        + "\"\nlabels = [ "@ + quoted_list(labels) + " ]\n"@ + license_line(license)
        + "\n\n[dependencies]\n# Add your dependencies here\n# `busted = \">=2.0\"`\n\n[run]\nargs = [ \""@
        + main.dir_name() + "/main.lua\" ]\n\n[build]\ntype = \"builtin\""@
}

/// Appends the characters of `s`.
fn push_str(out: &mut Vec<char>, s: &str)
    ensures
        final(out)@ == old(out)@ + s@,
{
    let chars = chars_of(s);
    let mut i: usize = 0;
    while i < chars.len()
        invariant
            chars@ == s@,
            i <= chars@.len(),
            out@ == old(out)@ + chars@.subrange(0, i as int),
        decreases chars@.len() - i,
    {
        out.push(chars[i]);
        assert(chars@.subrange(0, i as int + 1) == chars@.subrange(0, i as int).push(chars@[i as int]));
        i = i + 1;
    }
    assert(chars@.subrange(0, chars@.len() as int) == chars@);
}

/// The views of a list of strings.
pub open spec fn views_of(v: Seq<String>) -> Seq<Seq<char>> {
    v.map_values(|x: String| x@)
}

/// Writes the manifest of a new project from the values
/// chosen for it.
pub fn project_toml(
    name: &str,
    lua_version_req: &str,
    summary: &str,
    maintainer: &str,
    labels: &Vec<String>,
    license: Option<&str>,
    main: SourceDirType,
) -> (r: String)
    ensures
        r@ == project_toml_text(
            name@,
            lua_version_req@,
            summary@,
            maintainer@,
            views_of(labels@),
            match license {
                Some(l) => Some(l@),
                None => None,
            },
            main,
        ),
{
    let mut out: Vec<char> = Vec::new();
    push_str(&mut out, "package = \"");
    push_str(&mut out, name);
    push_str(&mut out, "\"\nversion = \"0.1.0\"\nlua = \"");
    push_str(&mut out, lua_version_req);
    push_str(&mut out, "\"\n\n[description]\nsummary = \"");
    push_str(&mut out, summary);
    push_str(&mut out, "\"\nmaintainer = \"");
    push_str(&mut out, maintainer);
    push_str(&mut out, "\"\nlabels = [ ");
    let ghost head = out@;
    let mut i: usize = 0;
    while i < labels.len()
        invariant
            i <= labels@.len(),
            out@ == head + quoted_list(views_of(labels@.subrange(0, i as int))),
        decreases labels@.len() - i,
    {
        assert(views_of(labels@.subrange(0, i as int + 1)).drop_last() == views_of(
            labels@.subrange(0, i as int),
        ));
        if i > 0 {
            push_str(&mut out, ", \"");
        } else {
            push_str(&mut out, "\"");
        }
        push_str(&mut out, labels[i].as_str());
        push_str(&mut out, "\"");
        proof {
            let q = views_of(labels@.subrange(0, i as int + 1));
            if i == 0 {
                assert(q.len() == 1);
                assert(out@ =~= head + quoted_list(q));
            } else {
                let prev = quoted_list(views_of(labels@.subrange(0, i as int)));
                assert(q.len() >= 2);
                assert(q.last() == labels@[i as int]@);
                assert(quoted_list(q) == prev + ", \""@ + labels@[i as int]@ + "\""@);
                assert(out@ =~= head + quoted_list(q));
            }
        }
        i = i + 1;
    }
    assert(labels@.subrange(0, labels@.len() as int) == labels@);
    push_str(&mut out, " ]\n");
    match license {
        Some(l) => {
            push_str(&mut out, "license = \"");
            push_str(&mut out, l);
            push_str(&mut out, "\"");
        },
        None => {},
    }
    push_str(
        &mut out,
        "\n\n[dependencies]\n# Add your dependencies here\n# `busted = \">=2.0\"`\n\n[run]\nargs = [ \"",
    );
    push_str(&mut out, main.as_str());
    push_str(&mut out, "/main.lua\" ]\n\n[build]\ntype = \"builtin\"");
    let r = string_from_chars(&out);
    assert(r@ =~= project_toml_text(
        name@,
        lua_version_req@,
        summary@,
        maintainer@,
        views_of(labels@),
        match license {
            Some(l) => Some(l@),
            None => None,
        },
        main,
    ));
    r
}

} // verus!
