//! Versioned edit proposals: an envelope of operations on workspace files that the editor checks
//! before it shows a diff (relative paths without `..`, bounded sizes). Nothing here touches the disk.

use vstd::prelude::*;

use crate::scan::{first_failure, lemma_first_failure_stable};
use crate::text::chars_of;

verus! {

/// Why a proposal is refused before it is shown (no file semantics: no I/O here).
#[derive(Debug, Clone, PartialEq, Eq)]
pub enum EditProposalValidationError {
    /// Malformed envelope.
    Corrupt(&'static str),
    /// Forbidden path (`..`, absolute, empty).
    BadPath,
    /// An operation text above a safe ceiling.
    ExceedsSizeLimit { field: &'static str, max: usize, got: usize },
}

/// Model of an [`EditProposalValidationError`]: texts as character sequences.
pub enum ProposalFailure {
    Corrupt(Seq<char>),
    BadPath,
    ExceedsSizeLimit { field: Seq<char>, max: usize, got: usize },
}

impl View for EditProposalValidationError {
    type V = ProposalFailure;

    open spec fn view(&self) -> ProposalFailure {
        match self {
            EditProposalValidationError::Corrupt(m) => ProposalFailure::Corrupt(m@),
            EditProposalValidationError::BadPath => ProposalFailure::BadPath,
            EditProposalValidationError::ExceedsSizeLimit { field, max, got } =>
                ProposalFailure::ExceedsSizeLimit { field: field@, max: *max, got: *got },
        }
    }
}

/// The model of a validation outcome.
pub open spec fn checked(r: Result<(), EditProposalValidationError>) -> Result<(), ProposalFailure> {
    match r {
        Ok(_) => Ok(()),
        Err(e) => Err(e@),
    }
}

pub const MAX_PATH: usize = 1024;
pub const MAX_REPLACEMENT: usize = 1000000;
pub const MAX_ID: usize = 64;
pub const MAX_SUMMARY: usize = 8192;
pub const MAX_OPS: usize = 1000;
/// Largest `end_line - start_line` of a line range.
pub const MAX_LINE_SPAN: u32 = 1000000;

/// Versioned envelope; `version` must be 2.
#[derive(Debug, Clone, PartialEq, Eq)]
pub struct EditProposalEnvelopeV2 {
    pub version: u8,
    /// Idempotence / UI tracking identifier (a short UUID for instance).
    pub id: String,
    pub summary: String,
    pub ops: Vec<EditOpV2>,
}

/// One targeted operation.
#[derive(Debug, Clone, PartialEq, Eq)]
pub enum EditOpV2 {
    /// Replaces every occurrence of `search` by `replace`.
    StringReplace { path: String, search: String, replace: String },
    /// Replaces one segment of the file (lines or bytes).
    FileReplace { path: String, range: ReplaceRangeV2, new_text: String },
}

/// Replacement range.
#[derive(Debug, Clone, Copy, PartialEq, Eq)]
pub enum ReplaceRangeV2 {
    /// 1-based lines, both ends included.
    Lines { start_line: u32, end_line: u32 },
    /// UTF-8 byte offsets, end excluded.
    Utf8Bytes { start_byte: usize, end_byte: usize },
}

/// A targeted file replacement written as a tuple (path, range, new text).
pub type EditFileReplaceV2 = (String, ReplaceRangeV2, String);

/// Length in bytes of the UTF-8 encoding of `s`, as `str::len` reports it.
pub open spec fn byte_len(s: Seq<char>) -> usize {
    vstd::utf8::encode_utf8(s).len() as usize
}

/// A `..` component starts at `i` (components are separated by `/`).
pub open spec fn parent_component_at(p: Seq<char>, i: int) -> bool {
    &&& 0 <= i && i + 2 <= p.len()
    &&& p[i] == '.' && p[i + 1] == '.'
    &&& (i == 0 || p[i - 1] == '/')
    &&& (i + 2 == p.len() || p[i + 2] == '/')
}

/// A path an operation may target: non-empty, at most [`MAX_PATH`] bytes, relative (no leading
/// `/` or `\`), and without any `..` component. Proposal paths are `/`-separated on every
/// platform: a `\` inside a path is an ordinary character here, also on hosts where the file
/// system would read it as a separator.
pub open spec fn path_allowed(p: Seq<char>) -> bool {
    &&& 0 < p.len()
    &&& byte_len(p) <= MAX_PATH
    &&& p[0] != '/' && p[0] != '\\'
    &&& forall|i: int| !parent_component_at(p, i)
}

/// The check of one operation.
pub open spec fn op_check(op: EditOpV2) -> Result<(), ProposalFailure> {
    match op {
        EditOpV2::StringReplace { path, search, replace } => {
            if !path_allowed(path@) {
                Err(ProposalFailure::BadPath)
            } else if byte_len(search@) > MAX_REPLACEMENT {
                Err(ProposalFailure::ExceedsSizeLimit { field: "search"@, max: MAX_REPLACEMENT, got: byte_len(search@) })
            } else if byte_len(replace@) > MAX_REPLACEMENT {
                Err(ProposalFailure::ExceedsSizeLimit { field: "replace"@, max: MAX_REPLACEMENT, got: byte_len(replace@) })
            } else {
                Ok(())
            }
        },
        EditOpV2::FileReplace { path, range, new_text } => {
            if !path_allowed(path@) {
                Err(ProposalFailure::BadPath)
            } else if byte_len(new_text@) > MAX_REPLACEMENT {
                Err(ProposalFailure::ExceedsSizeLimit { field: "newText"@, max: MAX_REPLACEMENT, got: byte_len(new_text@) })
            } else {
                match range {
                    ReplaceRangeV2::Lines { start_line, end_line } => {
                        if start_line == 0 || end_line == 0 || end_line < start_line || end_line - start_line > MAX_LINE_SPAN {
                            Err(ProposalFailure::Corrupt("lignes invalides"@))
                        } else {
                            Ok(())
                        }
                    },
                    ReplaceRangeV2::Utf8Bytes { start_byte, end_byte } => {
                        if end_byte < start_byte {
                            Err(ProposalFailure::Corrupt("octets invalides"@))
                        } else {
                            Ok(())
                        }
                    },
                }
            }
        },
    }
}

/// The check of a whole envelope: its header, then each operation in order.
pub open spec fn envelope_check(e: EditProposalEnvelopeV2) -> Result<(), ProposalFailure> {
    if e.version != 2 {
        Err(ProposalFailure::Corrupt("version doit être 2"@))
    } else if e.id@.len() == 0 || byte_len(e.id@) > MAX_ID {
        Err(ProposalFailure::ExceedsSizeLimit { field: "id"@, max: MAX_ID, got: byte_len(e.id@) })
    } else if byte_len(e.summary@) > MAX_SUMMARY {
        Err(ProposalFailure::ExceedsSizeLimit { field: "summary"@, max: MAX_SUMMARY, got: byte_len(e.summary@) })
    } else if e.ops@.len() == 0 {
        Err(ProposalFailure::Corrupt("ops ne peut pas être vide"@))
    } else if e.ops@.len() > MAX_OPS {
        Err(ProposalFailure::ExceedsSizeLimit { field: "ops.len"@, max: MAX_OPS, got: e.ops@.len() as usize })
    } else {
        first_failure(e.ops@.len(), |i: int| op_check(e.ops@[i]))
    }
}

fn str_byte_len(s: &str) -> (r: usize)
    ensures
        r == byte_len(s@),
{
    s.len()
}

impl EditProposalEnvelopeV2 {
    /// Safe rules checked before a diff is shown (no disk access).
    pub fn validate(&self) -> (r: Result<(), EditProposalValidationError>)
        ensures
            checked(r) == envelope_check(*self),
    {
        if self.version != 2 {
            return Err(EditProposalValidationError::Corrupt("version doit être 2"));
        }
        let id_len = str_byte_len(self.id.as_str());
        if self.id.as_str().is_empty() || id_len > MAX_ID {
            return Err(EditProposalValidationError::ExceedsSizeLimit { field: "id", max: MAX_ID, got: id_len });
        }
        let summary_len = str_byte_len(self.summary.as_str());
        if summary_len > MAX_SUMMARY {
            return Err(
                EditProposalValidationError::ExceedsSizeLimit { field: "summary", max: MAX_SUMMARY, got: summary_len },
            );
        }
        if self.ops.len() == 0 {
            return Err(EditProposalValidationError::Corrupt("ops ne peut pas être vide"));
        }
        if self.ops.len() > MAX_OPS {
            return Err(
                EditProposalValidationError::ExceedsSizeLimit { field: "ops.len", max: MAX_OPS, got: self.ops.len() },
            );
        }
        let ghost f = |i: int| op_check(self.ops@[i]);
        assert(envelope_check(*self) == first_failure(self.ops@.len(), f));
        let mut i: usize = 0;
        while i < self.ops.len()
            invariant
                i <= self.ops@.len(),
                f == (|i: int| op_check(self.ops@[i])),
                envelope_check(*self) == first_failure(self.ops@.len(), f),
                first_failure(i as nat, f) == Ok::<(), ProposalFailure>(()),
            decreases self.ops.len() - i,
        {
            let r = self.ops[i].validate();
            if r.is_err() {
                proof {
                    assert(first_failure((i + 1) as nat, f) == f(i as int));
                    lemma_first_failure_stable((i + 1) as nat, self.ops@.len(), f);
                }
                return r;
            }
            i = i + 1;
        }
        Ok(())
    }
}

impl EditOpV2 {
    /// Whether an operation may target `path`: see [`path_allowed`].
    pub fn path_ok(path: &str) -> (r: bool)
        ensures
            r == path_allowed(path@),
    {
        if path.is_empty() || str_byte_len(path) > MAX_PATH {
            return false;
        }
        let p = chars_of(path);
        if p[0] == '/' || p[0] == '\\' {
            return false;
        }
        let n = p.len();
        let mut i: usize = 0;
        while i < n
            invariant
                n == p@.len(),
                p@ == path@,
                i <= n,
                forall|k: int| 0 <= k < i ==> !parent_component_at(p@, k),
            decreases n - i,
        {
            if p[i] == '.' && i + 1 < n && p[i + 1] == '.' && (i == 0 || p[i - 1] == '/') && (i + 2 == n
                || p[i + 2] == '/') {
                assert(parent_component_at(path@, i as int));
                return false;
            }
            i = i + 1;
        }
        assert forall|k: int| !parent_component_at(p@, k) by {
            if 0 <= k && k < n {
            }
        }
        true
    }

    /// Checks the operation.
    pub fn validate(&self) -> (r: Result<(), EditProposalValidationError>)
        ensures
            checked(r) == op_check(*self),
    {
        match self {
            EditOpV2::StringReplace { path, search, replace } => {
                if !Self::path_ok(path.as_str()) {
                    return Err(EditProposalValidationError::BadPath);
                }
                let sl = str_byte_len(search.as_str());
                if sl > MAX_REPLACEMENT {
                    return Err(
                        EditProposalValidationError::ExceedsSizeLimit { field: "search", max: MAX_REPLACEMENT, got: sl },
                    );
                }
                let rl = str_byte_len(replace.as_str());
                if rl > MAX_REPLACEMENT {
                    return Err(
                        EditProposalValidationError::ExceedsSizeLimit { field: "replace", max: MAX_REPLACEMENT, got: rl },
                    );
                }
            },
            EditOpV2::FileReplace { path, range, new_text } => {
                if !Self::path_ok(path.as_str()) {
                    return Err(EditProposalValidationError::BadPath);
                }
                let nl = str_byte_len(new_text.as_str());
                if nl > MAX_REPLACEMENT {
                    return Err(
                        EditProposalValidationError::ExceedsSizeLimit { field: "newText", max: MAX_REPLACEMENT, got: nl },
                    );
                }
                match range {
                    ReplaceRangeV2::Lines { start_line, end_line } => {
                        if *start_line == 0 || *end_line == 0 || *end_line < *start_line || *end_line - *start_line
                            > MAX_LINE_SPAN {
                            return Err(EditProposalValidationError::Corrupt("lignes invalides"));
                        }
                    },
                    ReplaceRangeV2::Utf8Bytes { start_byte, end_byte } => {
                        if *end_byte < *start_byte {
                            return Err(EditProposalValidationError::Corrupt("octets invalides"));
                        }
                    },
                }
            },
        }
        Ok(())
    }
}

/// The path an operation targets.
pub open spec fn op_path(op: EditOpV2) -> Seq<char> {
    match op {
        EditOpV2::StringReplace { path, .. } => path@,
        EditOpV2::FileReplace { path, .. } => path@,
    }
}

/// An envelope that passes validation has version 2, at least one operation, and only operations
/// on allowed paths (relative, without `..`), of bounded size.
pub proof fn lemma_valid_envelope_paths(e: EditProposalEnvelopeV2)
    requires
        envelope_check(e) is Ok,
    ensures
        e.version == 2,
        0 < e.ops@.len() <= MAX_OPS,
        forall|i: int| 0 <= i < e.ops@.len() ==> path_allowed(op_path(#[trigger] e.ops@[i])),
        forall|i: int| 0 <= i < e.ops@.len() ==> op_check(#[trigger] e.ops@[i]) is Ok,
{
    let f = |i: int| op_check(e.ops@[i]);
    crate::scan::lemma_first_failure_ok(e.ops@.len(), f);
    assert forall|i: int| 0 <= i < e.ops@.len() implies path_allowed(op_path(#[trigger] e.ops@[i])) by {
        assert(f(i) is Ok);
    }
    assert forall|i: int| 0 <= i < e.ops@.len() implies op_check(#[trigger] e.ops@[i]) is Ok by {
        assert(f(i) is Ok);
    }
}

/// A path an operation may target is one that is not empty, is at most 1024 bytes, does not start
/// with `/` or `\`, and has no `/`-delimited segment equal to `..`.
pub proof fn lemma_path_allowed_segments(p: Seq<char>)
    ensures
        path_allowed(p) <==> {
            &&& 0 < p.len()
            &&& byte_len(p) <= 1024
            &&& p[0] != '/' && p[0] != '\\'
            &&& forall|i: int, j: int|
                0 <= i <= j <= p.len() && (i == 0 || p[i - 1] == '/') && (j == p.len() || p[j] == '/') && (forall|k: int|
                    i <= k < j ==> #[trigger] p[k] != '/') ==> #[trigger] p.subrange(i, j) != ".."@
        },
{
    reveal_strlit("..");
    if forall|i: int| !parent_component_at(p, i) {
        assert forall|i: int, j: int|
            0 <= i <= j <= p.len() && (i == 0 || p[i - 1] == '/') && (j == p.len() || p[j] == '/') && (forall|k: int|
                i <= k < j ==> #[trigger] p[k] != '/') implies #[trigger] p.subrange(i, j) != ".."@ by {
            if p.subrange(i, j) == ".."@ {
                assert(p.subrange(i, j).len() == ".."@.len());
                assert(".."@.len() == 2);
                assert(j == i + 2);
                assert(p[i] == p.subrange(i, j)[0] && p[i + 1] == p.subrange(i, j)[1]);
                assert(".."@[0] == '.' && ".."@[1] == '.');
                assert(parent_component_at(p, i));
            }
        }
    }
    if exists|i: int| parent_component_at(p, i) {
        let i = choose|i: int| parent_component_at(p, i);
        assert(p.subrange(i, i + 2) =~= ".."@);
        assert(forall|k: int| i <= k < i + 2 ==> #[trigger] p[k] != '/');
    }
}

} // verus!
