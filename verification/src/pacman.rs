//! The pacman backend's identity and report parsing: which tool it
//! dispatches under, how it elevates privilege, and how the tool's
//! package-query output is read. The shell-invoking half of the backend
//! lives outside the library, behind the `InstallationTool` contract.

use vstd::prelude::*;
use vstd::string::StrSliceExecFns;
use vstd::string::StringExecFns;

use crate::models::{InstallationTools, RawPackageData, RawPackageDataView};

verus! {

/// What `char::is_whitespace` returns for the character.
pub uninterp spec fn whitespace_char(c: char) -> bool;

/// Relies on char::is_whitespace: the result depends on the character alone.
#[verifier::external_body]
fn is_whitespace_char(c: char) -> (r: bool)
    ensures
        r == whitespace_char(c),
{
    c.is_whitespace()
}

/// The first maximal run of non-whitespace characters of a line, after any
/// leading whitespace; empty when the line holds none.
pub open spec fn line_token(line: Seq<char>) -> Seq<char>
    decreases line.len(),
{
    if line.len() == 0 {
        Seq::empty()
    } else if whitespace_char(line.first()) {
        line_token(line.drop_first())
    } else {
        token_run(line)
    }
}

/// The leading run of non-whitespace characters.
pub open spec fn token_run(line: Seq<char>) -> Seq<char>
    decreases line.len(),
{
    if line.len() == 0 || whitespace_char(line.first()) {
        Seq::empty()
    } else {
        seq![line.first()] + token_run(line.drop_first())
    }
}

/// The index of the first line feed, or the length when there is none.
pub open spec fn first_newline(s: Seq<char>) -> int
    decreases s.len(),
{
    if s.len() == 0 {
        0
    } else if s.first() == '\n' {
        0
    } else {
        1 + first_newline(s.drop_first())
    }
}

/// The record one reported line stands for: its first token as the package
/// name, this backend as the tool, and no category assignment.
pub open spec fn reported_entry(line: Seq<char>) -> RawPackageDataView {
    RawPackageDataView {
        package_name: line_token(line),
        installation_tool: InstallationTools::Pacman,
        category_name: Seq::<char>::empty(),
    }
}

/// The records a whole package-query report stands for: one per
/// line-feed-separated line, a trailing line feed closing the last line.
pub open spec fn spec_reported(s: Seq<char>) -> Seq<RawPackageDataView>
    decreases s.len(),
{
    if s.len() == 0 {
        Seq::empty()
    } else {
        let i = first_newline(s);
        if 0 <= i < s.len() {
            seq![reported_entry(s.take(i))] + spec_reported(s.skip(i + 1))
        } else {
            seq![reported_entry(s)]
        }
    }
}

proof fn lemma_first_newline(s: Seq<char>, j: int)
    requires
        0 <= j <= s.len(),
        forall|t: int| 0 <= t < j ==> (#[trigger] s[t]) != '\n',
        j < s.len() ==> s[j] == '\n',
    ensures
        first_newline(s) == j,
    decreases s.len(),
{
    if s.len() > 0 && j > 0 {
        assert forall|t: int| 0 <= t < j - 1 implies (#[trigger] s.drop_first()[t]) != '\n' by {
            assert(s.drop_first()[t] == s[t + 1]);
        }
        assert(j - 1 < s.drop_first().len() ==> s.drop_first()[j - 1] == s[j]);
        lemma_first_newline(s.drop_first(), j - 1);
    }
}

proof fn lemma_token_run(line: Seq<char>, b: int)
    requires
        0 <= b <= line.len(),
        forall|t: int| 0 <= t < b ==> !whitespace_char(#[trigger] line[t]),
        b < line.len() ==> whitespace_char(line[b]),
    ensures
        token_run(line) == line.take(b),
    decreases line.len(),
{
    if b == 0 {
        assert(line.take(0) =~= Seq::<char>::empty());
    } else {
        assert forall|t: int| 0 <= t < b - 1 implies !whitespace_char(
            #[trigger] line.drop_first()[t],
        ) by {
            assert(line.drop_first()[t] == line[t + 1]);
        }
        assert(b - 1 < line.drop_first().len() ==> line.drop_first()[b - 1] == line[b]);
        lemma_token_run(line.drop_first(), b - 1);
        assert(line.take(b) =~= seq![line.first()] + line.drop_first().take(b - 1));
    }
}

proof fn lemma_line_token_range(line: Seq<char>, a: int, b: int)
    requires
        0 <= a <= b <= line.len(),
        forall|t: int| 0 <= t < a ==> whitespace_char(#[trigger] line[t]),
        forall|t: int| a <= t < b ==> !whitespace_char(#[trigger] line[t]),
        b < line.len() ==> whitespace_char(line[b]),
        a == b ==> a == line.len(),
    ensures
        line_token(line) == line.subrange(a, b),
    decreases line.len(),
{
    if a == 0 {
        if a == b {
            assert(line.len() == 0);
            assert(line.subrange(0, 0) =~= Seq::<char>::empty());
        } else {
            lemma_token_run(line, b);
            assert(line.subrange(0, b) =~= line.take(b));
        }
    } else {
        assert forall|t: int| 0 <= t < a - 1 implies whitespace_char(
            #[trigger] line.drop_first()[t],
        ) by {
            assert(line.drop_first()[t] == line[t + 1]);
        }
        assert forall|t: int| a - 1 <= t < b - 1 implies !whitespace_char(
            #[trigger] line.drop_first()[t],
        ) by {
            assert(line.drop_first()[t] == line[t + 1]);
        }
        assert(b - 1 < line.drop_first().len() ==> line.drop_first()[b - 1] == line[b]);
        lemma_line_token_range(line.drop_first(), a - 1, b - 1);
        assert(line.drop_first().subrange(a - 1, b - 1) =~= line.subrange(a, b));
    }
}

/// Reads a package-query report: each line contributes one record, named by
/// the line's first whitespace-separated token (empty when the line holds
/// none).
pub fn parse_reported_packages(output: &str) -> (r: Vec<RawPackageData>)
    ensures
        crate::raw_views(r@) == spec_reported(output@),
{
    let n = output.unicode_len();
    let mut r: Vec<RawPackageData> = Vec::new();
    let mut pos: usize = 0;
    proof {
        assert(output@.skip(0) =~= output@);
        assert(crate::raw_views(r@) + spec_reported(output@.skip(0)) =~= spec_reported(output@));
    }
    while pos < n
        invariant
            pos <= n,
            n == output@.len(),
            crate::raw_views(r@) + spec_reported(output@.skip(pos as int)) == spec_reported(
                output@,
            ),
        decreases n - pos,
    {
        let ghost s_p = output@.skip(pos as int);
        let mut eol: usize = pos;
        while eol < n && !(output.get_char(eol) == '\n')
            invariant
                pos <= eol <= n,
                n == output@.len(),
                forall|t: int| pos <= t < eol ==> (#[trigger] output@[t]) != '\n',
            decreases n - eol,
        {
            eol = eol + 1;
        }
        let mut a: usize = pos;
        while a < eol && is_whitespace_char(output.get_char(a))
            invariant
                pos <= a <= eol <= n,
                n == output@.len(),
                forall|t: int| pos <= t < a ==> whitespace_char(#[trigger] output@[t]),
            decreases eol - a,
        {
            a = a + 1;
        }
        let mut b: usize = a;
        while b < eol && !is_whitespace_char(output.get_char(b))
            invariant
                pos <= a <= b <= eol <= n,
                n == output@.len(),
                forall|t: int| a <= t < b ==> !whitespace_char(#[trigger] output@[t]),
            decreases eol - b,
        {
            b = b + 1;
        }
        let name = String::from_str(output.substring_char(a, b));
        let ghost line = output@.subrange(pos as int, eol as int);
        proof {
            assert forall|t: int| 0 <= t < eol - pos implies (#[trigger] s_p[t]) != '\n' by {
                assert(s_p[t] == output@[pos + t]);
            }
            assert(eol < n ==> s_p[eol - pos] == output@[eol as int]);
            lemma_first_newline(s_p, eol - pos);
            assert(s_p.take(eol - pos) =~= line);
            assert forall|t: int| 0 <= t < a - pos implies whitespace_char(
                #[trigger] line[t],
            ) by {
                assert(line[t] == output@[pos + t]);
            }
            assert forall|t: int| a - pos <= t < b - pos implies !whitespace_char(
                #[trigger] line[t],
            ) by {
                assert(line[t] == output@[pos + t]);
            }
            assert(b < eol ==> line[b - pos] == output@[b as int]);
            lemma_line_token_range(line, a - pos, b - pos);
            assert(line.subrange(a - pos, b - pos) =~= output@.subrange(a as int, b as int));
            assert(name@ == line_token(line));
        }
        let record = RawPackageData {
            package_name: name,
            installation_tool: InstallationTools::Pacman,
            category_name: String::new(),
        };
        proof {
            assert(record@ == reported_entry(line));
        }
        r.push(record);
        let ghost r_prev = r@.drop_last();
        proof {
            assert(crate::raw_views(r@) =~= crate::raw_views(r_prev) + seq![record@]);
        }
        if eol < n {
            proof {
                assert(spec_reported(s_p) == seq![reported_entry(line)] + spec_reported(
                    s_p.skip(eol - pos + 1),
                ));
                assert(s_p.skip(eol - pos + 1) =~= output@.skip(eol + 1));
                assert(crate::raw_views(r_prev) + (seq![record@] + spec_reported(
                    output@.skip(eol + 1),
                )) =~= (crate::raw_views(r_prev) + seq![record@]) + spec_reported(
                    output@.skip(eol + 1),
                ));
            }
            pos = eol + 1;
        } else {
            proof {
                assert(s_p.take(eol - pos) =~= s_p);
                assert(spec_reported(s_p) == seq![reported_entry(line)]);
                assert(output@.skip(n as int).len() == 0);
                assert(spec_reported(output@.skip(n as int)) =~= Seq::<
                    RawPackageDataView,
                >::empty());
                assert(crate::raw_views(r_prev) + seq![record@] + spec_reported(
                    output@.skip(n as int),
                ) =~= crate::raw_views(r_prev) + seq![record@]);
            }
            pos = n;
        }
    }
    proof {
        assert(output@.skip(pos as int).len() == 0);
        assert(spec_reported(output@.skip(pos as int)) =~= Seq::<RawPackageDataView>::empty());
        assert(crate::raw_views(r@) + spec_reported(output@.skip(pos as int)) =~= crate::raw_views(
            r@,
        ));
    }
    r
}

/// How the backend elevates privilege for mutating calls.
#[derive(Debug, Clone, Copy)]
pub enum PermissionMethod {
    Sudo,
    Pkexec,
}

/// The identity of a pacman-backed installer.
pub struct PacmanInstaller {
    permission_method: PermissionMethod,
}

impl PacmanInstaller {
    /// The privilege-escalation method this installer was created with.
    pub closed spec fn permission_method_spec(&self) -> PermissionMethod {
        self.permission_method
    }

    /// An installer that will elevate privilege by the given method.
    pub fn new(permission_method: PermissionMethod) -> (r: Self)
        ensures
            r.permission_method_spec() == permission_method,
    {
        PacmanInstaller { permission_method }
    }

    /// The identifier this backend dispatches under.
    pub fn get_type(&self) -> (r: InstallationTools)
        ensures
            r == InstallationTools::Pacman,
    {
        InstallationTools::Pacman
    }

    /// The privilege-escalation method this installer was created with.
    pub fn permission_method(&self) -> (r: PermissionMethod)
        ensures
            r == self.permission_method_spec(),
    {
        self.permission_method
    }
}

} // verus!
