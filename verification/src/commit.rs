//! Identifiers of changes and commits, how they are shown, and what is shown of
//! a commit.

use vstd::prelude::*;

verus! {

/// The sixteen digits of the ordinary hexadecimal notation.
pub open spec fn hex_digits() -> Seq<char> {
    seq!['0', '1', '2', '3', '4', '5', '6', '7', '8', '9', 'a', 'b', 'c', 'd', 'e', 'f']
}

/// The sixteen digits of the reversed hexadecimal notation, in which `z`
/// stands for 0 and `k` for 15.
pub open spec fn reverse_hex_digits() -> Seq<char> {
    seq!['z', 'y', 'x', 'w', 'v', 'u', 't', 's', 'r', 'q', 'p', 'o', 'n', 'm', 'l', 'k']
}

/// `bytes` written with two of `digits` for each byte, the higher four bits
/// first.
pub open spec fn encoded_with(bytes: Seq<u8>, digits: Seq<char>) -> Seq<char>
    decreases bytes.len(),
{
    if bytes.len() == 0 {
        Seq::<char>::empty()
    } else {
        encoded_with(bytes.drop_last(), digits).push(digits[bytes.last() as int / 16]).push(
            digits[bytes.last() as int % 16],
        )
    }
}

/// The first `limit` characters of `text`, or all of it where it has no more.
pub open spec fn truncated(text: Seq<char>, limit: int) -> Seq<char> {
    if text.len() <= limit {
        text
    } else {
        text.take(limit)
    }
}

/// How many digits the short form of an identifier has at most.
pub const SHORT_HASH_DIGITS: usize = 12;

/// The short form of the change identifier `bytes`: the first twelve digits
/// of its reversed hexadecimal notation.
pub open spec fn short_change_text(bytes: Seq<u8>) -> Seq<char> {
    truncated(encoded_with(bytes, reverse_hex_digits()), SHORT_HASH_DIGITS as int)
}

/// The short form of the commit identifier `bytes`: the first twelve digits
/// of its hexadecimal notation.
pub open spec fn short_commit_text(bytes: Seq<u8>) -> Seq<char> {
    truncated(encoded_with(bytes, hex_digits()), SHORT_HASH_DIGITS as int)
}

/// Identifies a change, which stays the same while its commit is rewritten.
#[derive(Debug)]
pub struct ChangeId {
    bytes: Vec<u8>,
}

impl View for ChangeId {
    type V = Seq<u8>;

    closed spec fn view(&self) -> Seq<u8> {
        self.bytes@
    }
}

impl Clone for ChangeId {
    fn clone(&self) -> (copy: Self)
        ensures
            copy@ == self@,
    {
        ChangeId { bytes: copy_bytes(&self.bytes) }
    }
}

impl ChangeId {
    /// The identifier that `bytes` are.
    pub fn new(bytes: Vec<u8>) -> (id: Self)
        ensures
            id@ == bytes@,
    {
        ChangeId { bytes }
    }

    /// The bytes of the identifier.
    pub fn as_bytes(&self) -> (bytes: &Vec<u8>)
        ensures
            bytes@ == self@,
    {
        &self.bytes
    }

    /// Whether `other` is the same identifier.
    pub fn same_id(&self, other: &ChangeId) -> (same: bool)
        ensures
            same == (self@ == other@),
    {
        same_bytes(&self.bytes, &other.bytes)
    }
}

/// Identifies a commit by its content.
#[derive(Debug)]
pub struct CommitId {
    bytes: Vec<u8>,
}

impl View for CommitId {
    type V = Seq<u8>;

    closed spec fn view(&self) -> Seq<u8> {
        self.bytes@
    }
}

impl Clone for CommitId {
    fn clone(&self) -> (copy: Self)
        ensures
            copy@ == self@,
    {
        CommitId { bytes: copy_bytes(&self.bytes) }
    }
}

impl CommitId {
    /// The identifier that `bytes` are.
    pub fn new(bytes: Vec<u8>) -> (id: Self)
        ensures
            id@ == bytes@,
    {
        CommitId { bytes }
    }

    /// The bytes of the identifier.
    pub fn as_bytes(&self) -> (bytes: &Vec<u8>)
        ensures
            bytes@ == self@,
    {
        &self.bytes
    }

    /// Whether `other` is the same identifier.
    pub fn same_id(&self, other: &CommitId) -> (same: bool)
        ensures
            same == (self@ == other@),
    {
        same_bytes(&self.bytes, &other.bytes)
    }
}

/// Copies `bytes`.
fn copy_bytes(bytes: &Vec<u8>) -> (copy: Vec<u8>)
    ensures
        copy@ == bytes@,
{
    let mut copy: Vec<u8> = Vec::new();
    let mut i: usize = 0;
    while i < bytes.len()
        invariant
            i <= bytes.len(),
            copy@ == bytes@.take(i as int),
        decreases bytes.len() - i,
    {
        copy.push(bytes[i]);
        proof {
            assert(copy@ =~= bytes@.take(i + 1));
        }
        i += 1;
    }
    proof {
        assert(bytes@.take(bytes.len() as int) =~= bytes@);
    }
    copy
}

/// Decides whether `a` and `b` hold the same bytes.
fn same_bytes(a: &Vec<u8>, b: &Vec<u8>) -> (same: bool)
    ensures
        same == (a@ == b@),
{
    if a.len() != b.len() {
        return false;
    }
    let mut i: usize = 0;
    while i < a.len()
        invariant
            a.len() == b.len(),
            i <= a.len(),
            forall|j: int| 0 <= j < i ==> a@[j] == b@[j],
        decreases a.len() - i,
    {
        if a[i] != b[i] {
            return false;
        }
        i += 1;
    }
    proof {
        assert(a@ =~= b@);
    }
    true
}

/// Formats a `jj_lib::backend::ChangeId` made of `bytes` through its `Display`,
/// which writes the reversed hexadecimal notation of the bytes.
#[verifier::external_body]
fn display_change_id(bytes: &Vec<u8>) -> (text: String)
    ensures
        text@ == encoded_with(bytes@, reverse_hex_digits()),
{
    format!("{}", jj_lib::backend::ChangeId::from_bytes(bytes))
}

/// Formats a `jj_lib::backend::CommitId` made of `bytes` through its `Display`,
/// which writes the hexadecimal notation of the bytes.
#[verifier::external_body]
fn display_commit_id(bytes: &Vec<u8>) -> (text: String)
    ensures
        text@ == encoded_with(bytes@, hex_digits()),
{
    format!("{}", jj_lib::backend::CommitId::from_bytes(bytes))
}

/// Cuts `text` to its first digits, as many as a short form has at most.
fn shortened(text: String) -> (short: String)
    ensures
        short@ == truncated(text@, SHORT_HASH_DIGITS as int),
{
    if text.as_str().unicode_len() <= SHORT_HASH_DIGITS {
        text
    } else {
        let short = text.as_str().substring_char(0, SHORT_HASH_DIGITS).to_owned();
        proof {
            assert(text@.subrange(0, SHORT_HASH_DIGITS as int) =~= text@.take(
                SHORT_HASH_DIGITS as int,
            ));
        }
        short
    }
}

/// The short form of a change identifier, as it is shown.
pub fn short_change_hash(change_id: &ChangeId) -> (text: String)
    ensures
        text@ == short_change_text(change_id@),
{
    shortened(display_change_id(&change_id.bytes))
}

/// The short form of a commit identifier, as it is shown.
pub fn short_commit_hash(commit_id: &CommitId) -> (text: String)
    ensures
        text@ == short_commit_text(commit_id@),
{
    shortened(display_commit_id(&commit_id.bytes))
}

/// What the history holds of one commit.
#[derive(Debug)]
pub struct CommitSummary {
    pub commit_id: CommitId,
    pub change_id: ChangeId,
    pub author: String,
    pub description: String,
    pub timestamp: i64,
}

/// What a commit summary is, with identifiers as bytes and texts as characters.
pub struct CommitSummaryView {
    pub commit_id: Seq<u8>,
    pub change_id: Seq<u8>,
    pub author: Seq<char>,
    pub description: Seq<char>,
    pub timestamp: i64,
}

impl View for CommitSummary {
    type V = CommitSummaryView;

    open spec fn view(&self) -> CommitSummaryView {
        CommitSummaryView {
            commit_id: self.commit_id@,
            change_id: self.change_id@,
            author: self.author@,
            description: self.description@,
            timestamp: self.timestamp,
        }
    }
}

impl Clone for CommitSummary {
    fn clone(&self) -> (copy: Self)
        ensures
            copy@ == self@,
    {
        CommitSummary {
            commit_id: self.commit_id.clone(),
            change_id: self.change_id.clone(),
            author: self.author.clone(),
            description: self.description.clone(),
            timestamp: self.timestamp,
        }
    }
}

/// What is shown of one commit.
#[derive(Debug)]
pub struct JjCommitSummary {
    pub commit_id: CommitId,
    pub change_id: ChangeId,
    pub description: String,
    pub author: String,
    pub timestamp: i64,
    pub is_current: bool,
}

/// What a shown commit is, with identifiers as bytes and texts as characters.
pub struct ShownCommitView {
    pub commit_id: Seq<u8>,
    pub change_id: Seq<u8>,
    pub description: Seq<char>,
    pub author: Seq<char>,
    pub timestamp: i64,
    pub is_current: bool,
}

impl View for JjCommitSummary {
    type V = ShownCommitView;

    open spec fn view(&self) -> ShownCommitView {
        ShownCommitView {
            commit_id: self.commit_id@,
            change_id: self.change_id@,
            description: self.description@,
            author: self.author@,
            timestamp: self.timestamp,
            is_current: self.is_current,
        }
    }
}

/// What is shown of `commit` while the working copy is at the change
/// `current_change`, if it is at any: the commit is marked as current where
/// its change is that one.
pub open spec fn shown_commit(
    current_change: Option<Seq<u8>>,
    commit: CommitSummaryView,
) -> ShownCommitView {
    ShownCommitView {
        commit_id: commit.commit_id,
        change_id: commit.change_id,
        description: commit.description,
        author: commit.author,
        timestamp: commit.timestamp,
        is_current: current_change == Some(commit.change_id),
    }
}

/// The bytes of a change identifier that may be absent.
pub open spec fn optional_change_view(change: Option<&ChangeId>) -> Option<Seq<u8>> {
    match change {
        Some(id) => Some(id@),
        None => None,
    }
}

/// Turns the commits of the history into what is shown of them, one for one
/// and in the same order.
pub fn summarize_commits(current_change: Option<&ChangeId>, commits: Vec<CommitSummary>) -> (shown:
    Vec<JjCommitSummary>)
    ensures
        shown.len() == commits.len(),
        forall|i: int|
            0 <= i < shown.len() ==> (#[trigger] shown[i])@ == shown_commit(
                optional_change_view(current_change),
                commits[i]@,
            ),
{
    let mut shown: Vec<JjCommitSummary> = Vec::new();
    let mut i: usize = 0;
    while i < commits.len()
        invariant
            i <= commits.len(),
            shown.len() == i,
            forall|j: int|
                0 <= j < i ==> (#[trigger] shown[j])@ == shown_commit(
                    optional_change_view(current_change),
                    commits[j]@,
                ),
        decreases commits.len() - i,
    {
        let commit = &commits[i];
        let is_current = match current_change {
            Some(current) => current.same_id(&commit.change_id),
            None => false,
        };
        shown.push(
            JjCommitSummary {
                commit_id: commit.commit_id.clone(),
                change_id: commit.change_id.clone(),
                description: commit.description.clone(),
                author: commit.author.clone(),
                timestamp: commit.timestamp,
                is_current,
            },
        );
        i += 1;
    }
    shown
}

/// Why a change has no commit to work on.
#[derive(Debug)]
pub enum ChangeLookupError {
    /// Nothing is known under the change identifier.
    NotFound { short_hash: String },
    /// The change identifier is known, but no commit belongs to it.
    NoCommits { short_hash: String },
}

/// What the failure `error` reads as.
pub open spec fn lookup_error_text(error: ChangeLookupError) -> Seq<char> {
    match error {
        ChangeLookupError::NotFound { short_hash } => "change "@ + short_hash@ + " not found"@,
        ChangeLookupError::NoCommits { short_hash } => "change "@ + short_hash@
            + " has no associated commits"@,
    }
}

impl ChangeLookupError {
    /// What the failure reads as. It names the change by its short form.
    pub fn message(&self) -> (text: String)
        ensures
            text@ == lookup_error_text(*self),
    {
        let mut text = String::new();
        proof {
            assert(text@ + "change "@ =~= "change "@);
        }
        text.append("change ");
        match self {
            ChangeLookupError::NotFound { short_hash } => {
                text.append(short_hash.as_str());
                text.append(" not found");
            },
            ChangeLookupError::NoCommits { short_hash } => {
                text.append(short_hash.as_str());
                text.append(" has no associated commits");
            },
        }
        text
    }
}

/// Picks the commit to work on for the change `change_id`, of which `resolved`
/// holds the commits, or nothing where the change is not known: the first of
/// the commits. An unknown change and a change without commits are failures
/// that name the change by its short form.
pub fn resolve_change_commit(change_id: &ChangeId, resolved: Option<Vec<CommitId>>) -> (commit:
    Result<CommitId, ChangeLookupError>)
    ensures
        match resolved {
            None => commit matches Err(ChangeLookupError::NotFound { short_hash })
                && short_hash@ == short_change_text(change_id@),
            Some(commits) => if commits.len() == 0 {
                commit matches Err(ChangeLookupError::NoCommits { short_hash }) && short_hash@
                    == short_change_text(change_id@)
            } else {
                commit matches Ok(id) && id@ == commits[0]@
            },
        },
{
    match resolved {
        None => Err(ChangeLookupError::NotFound { short_hash: short_change_hash(change_id) }),
        Some(commits) => {
            if commits.len() == 0 {
                Err(ChangeLookupError::NoCommits { short_hash: short_change_hash(change_id) })
            } else {
                Ok(commits[0].clone())
            }
        },
    }
}

/// The description of the operation that makes the change `change_id` the
/// one that is edited.
pub fn edit_description(change_id: &ChangeId) -> (text: String)
    ensures
        text@ == "edit change "@ + short_change_text(change_id@),
{
    let mut text = String::new();
    proof {
        assert(text@ + "edit change "@ =~= "edit change "@);
    }
    text.append("edit change ");
    let short = short_change_hash(change_id);
    text.append(short.as_str());
    text
}

/// The description of the operation that gives the change `change_id` a new
/// description.
pub fn rename_description(change_id: &ChangeId) -> (text: String)
    ensures
        text@ == "rename change "@ + short_change_text(change_id@),
{
    let mut text = String::new();
    proof {
        assert(text@ + "rename change "@ =~= "rename change "@);
    }
    text.append("rename change ");
    let short = short_change_hash(change_id);
    text.append(short.as_str());
    text
}

} // verus!
