//! Per-record scope decisions of the batch run.
//!
//! For each staged-change record the run normalizes the record's path against
//! the repository root, refuses symbolic links outright, keeps only
//! content-bearing added or modified records, and asks the pattern filter
//! whether the path is in scope.  The formatter command itself is assembled
//! by substituting the record's path for the `{}` placeholder.

use vstd::prelude::*;

use crate::pattern::SignedPattern;
use crate::pattern::SignedPatternModel;
use crate::pattern::match_path_spec;
use crate::pattern::matches_some_path;
use crate::pattern::path_as_text;
use crate::pattern::path_text;
use crate::pattern::pats_model;
use crate::record::DiffRecord;
use crate::record::RecordModel;
use crate::util::push_all;

verus! {

pub const SLASH: u8 = 47;

pub const LBRACE: u8 = 123;

pub const RBRACE: u8 = 125;

/// The mode string `120000` that marks a symbolic link.
pub open spec fn symlink_mode() -> Seq<u8> {
    seq![49u8, 50u8, 48u8, 48u8, 48u8, 48u8]
}

/// The status letters whose records carry formattable content: Added and
/// Modified.
pub open spec fn is_content_status(b: u8) -> bool {
    b == 65 || b == 77
}

pub open spec fn root_model(root: Option<&Vec<u8>>) -> Option<Seq<u8>> {
    match root {
        Option::None => Option::None,
        Some(r) => Some(r@),
    }
}

/// Purely lexical join of a relative path onto the repository root: an
/// absolute path, or a missing root, leaves the path as it is; otherwise a
/// single separator is placed between root and path.
pub open spec fn join_spec(root: Option<Seq<u8>>, rel: Seq<u8>) -> Seq<u8> {
    match root {
        Option::None => rel,
        Some(ro) => {
            if rel.len() > 0 && rel[0] == SLASH {
                rel
            } else if ro.len() == 0 {
                rel
            } else if ro.last() == SLASH {
                ro + rel
            } else {
                ro + seq![SLASH] + rel
            }
        },
    }
}

/// Resolve a record's path against the repository root, purely lexically.
pub fn normalize_path(relative_path: &Vec<u8>, git_root: Option<&Vec<u8>>) -> (r: Vec<u8>)
    ensures
        r@ == join_spec(root_model(git_root), relative_path@),
{
    let mut out: Vec<u8> = Vec::new();
    match git_root {
        Option::None => {
            push_all(&mut out, relative_path);
            proof {
                assert(out@ =~= relative_path@);
            }
        },
        Some(root) => {
            if (relative_path.len() > 0 && relative_path[0] == SLASH) || root.len() == 0 {
                push_all(&mut out, relative_path);
                proof {
                    assert(out@ =~= relative_path@);
                }
            } else {
                push_all(&mut out, root);
                if root[root.len() - 1] != SLASH {
                    out.push(SLASH);
                }
                push_all(&mut out, relative_path);
                proof {
                    if root@.last() == SLASH {
                        assert(out@ =~= root@ + relative_path@);
                    } else {
                        assert(out@ =~= root@ + seq![SLASH] + relative_path@);
                    }
                }
            }
        },
    }
    out
}

/// Why a record was left alone.
#[derive(Clone, Copy, PartialEq, Eq, Structural, Debug)]
pub enum SkipReason {
    Symlink,
    NotContentChange,
    UnreadablePath,
    Unmatched,
}

/// What the run does with one record: skip it, or format the file at the
/// normalized path.
pub enum RecordAction {
    Skip(SkipReason),
    Format(Vec<u8>),
}

pub ghost enum RecordActionModel {
    Skip(SkipReason),
    Format(Seq<u8>),
}

impl View for RecordAction {
    type V = RecordActionModel;

    open spec fn view(&self) -> RecordActionModel {
        match self {
            RecordAction::Skip(reason) => RecordActionModel::Skip(*reason),
            RecordAction::Format(path) => RecordActionModel::Format(path@),
        }
    }
}

/// The scope decision for one record: symbolic links are always excluded,
/// whatever the patterns say; only added or modified records are candidates;
/// a path whose bytes are not text fails closed; everything else is up to
/// the pattern filter on the normalized path.
pub open spec fn select_action_spec(
    rec: RecordModel,
    pats: Seq<SignedPatternModel>,
    root: Option<Seq<u8>>,
) -> RecordActionModel {
    if rec.dst_mode == symlink_mode() {
        RecordActionModel::Skip(SkipReason::Symlink)
    } else if !is_content_status(rec.status) {
        RecordActionModel::Skip(SkipReason::NotContentChange)
    } else {
        let path = join_spec(root, rec.src_path);
        if path_as_text(path) is None {
            RecordActionModel::Skip(SkipReason::UnreadablePath)
        } else if !match_path_spec(pats, path) {
            RecordActionModel::Skip(SkipReason::Unmatched)
        } else {
            RecordActionModel::Format(path)
        }
    }
}

fn is_symlink_mode(m: &Vec<u8>) -> (r: bool)
    ensures
        r == (m@ == symlink_mode()),
{
    proof {
        assert(symlink_mode().len() == 6);
        assert(symlink_mode()[0] == 49 && symlink_mode()[1] == 50 && symlink_mode()[2] == 48
            && symlink_mode()[3] == 48 && symlink_mode()[4] == 48 && symlink_mode()[5] == 48);
    }
    if m.len() != 6 {
        return false;
    }
    let r = m[0] == 49 && m[1] == 50 && m[2] == 48 && m[3] == 48 && m[4] == 48 && m[5] == 48;
    proof {
        if r {
            assert(m@ =~= symlink_mode());
        }
    }
    r
}

/// Decide what the run does with one parsed record.
pub fn select_action(
    record: &DiffRecord,
    signed_patterns: &Vec<SignedPattern>,
    git_root: Option<&Vec<u8>>,
) -> (r: RecordAction)
    ensures
        r@ == select_action_spec(record@, pats_model(signed_patterns@), root_model(git_root)),
{
    if is_symlink_mode(&record.dst_mode) {
        return RecordAction::Skip(SkipReason::Symlink);
    }
    if !(record.status == 65 || record.status == 77) {
        return RecordAction::Skip(SkipReason::NotContentChange);
    }
    let path = normalize_path(&record.src_path, git_root);
    match path_text(&path) {
        Option::None => RecordAction::Skip(SkipReason::UnreadablePath),
        Some(_text) => {
            if matches_some_path(signed_patterns, &path) {
                RecordAction::Format(path)
            } else {
                RecordAction::Skip(SkipReason::Unmatched)
            }
        },
    }
}

/// A record whose destination mode marks a symbolic link is excluded from
/// formatting no matter which patterns were supplied and no matter the root.
pub proof fn lemma_symlink_always_excluded(
    rec: RecordModel,
    pats: Seq<SignedPatternModel>,
    root: Option<Seq<u8>>,
)
    requires
        rec.dst_mode == symlink_mode(),
    ensures
        select_action_spec(rec, pats, root) == RecordActionModel::Skip(SkipReason::Symlink),
{
}

/// The formatter command with every occurrence of the `{}` placeholder
/// replaced by the path.
pub open spec fn subst_spec(t: Seq<u8>, p: Seq<u8>) -> Seq<u8>
    decreases t.len(),
{
    if t.len() == 0 {
        Seq::empty()
    } else if t.len() >= 2 && t[0] == LBRACE && t[1] == RBRACE {
        p + subst_spec(t.skip(2), p)
    } else {
        seq![t[0]] + subst_spec(t.skip(1), p)
    }
}

/// Substitute the path for every `{}` placeholder in the formatter command
/// template.
pub fn substitute_placeholder(template: &Vec<u8>, path: &Vec<u8>) -> (r: Vec<u8>)
    ensures
        r@ == subst_spec(template@, path@),
{
    let mut out: Vec<u8> = Vec::new();
    let mut i: usize = 0;
    proof {
        assert(template@.skip(0) =~= template@);
        assert(out@ + subst_spec(template@, path@) =~= subst_spec(template@, path@));
    }
    while i < template.len()
        invariant
            i <= template@.len(),
            subst_spec(template@, path@) == out@ + subst_spec(template@.skip(i as int), path@),
        decreases template.len() - i,
    {
        let ghost t = template@;
        let ghost ti = i as int;
        let ghost out_old = out@;
        if i + 1 < template.len() && template[i] == LBRACE && template[i + 1] == RBRACE {
            push_all(&mut out, path);
            proof {
                assert(t.skip(ti)[0] == t[ti]);
                assert(t.skip(ti)[1] == t[ti + 1]);
                assert(subst_spec(t.skip(ti), path@) == path@ + subst_spec(t.skip(ti + 2), path@))
                    by {
                    assert(t.skip(ti).skip(2) =~= t.skip(ti + 2));
                };
                assert(out_old + subst_spec(t.skip(ti), path@) =~= (out_old + path@) + subst_spec(
                    t.skip(ti + 2),
                    path@,
                ));
            }
            i = i + 2;
        } else {
            out.push(template[i]);
            proof {
                assert(t.skip(ti)[0] == t[ti]);
                assert(subst_spec(t.skip(ti), path@) == seq![t[ti]] + subst_spec(
                    t.skip(ti + 1),
                    path@,
                )) by {
                    assert(t.skip(ti).skip(1) =~= t.skip(ti + 1));
                };
                assert(out_old + subst_spec(t.skip(ti), path@) =~= (out_old + seq![t[ti]])
                    + subst_spec(t.skip(ti + 1), path@));
                assert(out@ =~= out_old + seq![t[ti]]);
            }
            i = i + 1;
        }
    }
    proof {
        assert(subst_spec(template@.skip(template@.len() as int), path@) =~= Seq::<u8>::empty());
        assert(out@ + Seq::<u8>::empty() =~= out@);
    }
    out
}

} // verus!
