use vstd::prelude::*;

verus! {

/// Identity of one thumbnail: the asset it shows and the version of its sources.
#[derive(Clone, Copy, Debug, PartialEq, Eq, Structural, Hash)]
pub struct ThumbnailKey {
    pub asset_id: u128,
    pub source_version: u64,
}

/// Scheduling priority of a thumbnail request; `High` is served first.
#[derive(Clone, Copy, Debug, PartialEq, Eq, Structural, PartialOrd, Ord, Hash)]
pub enum ThumbnailPriority {
    Low,
    Normal,
    High,
}

/// The rank by which priorities are compared: `Low < Normal < High`.
pub open spec fn priority_rank(p: ThumbnailPriority) -> nat {
    match p {
        ThumbnailPriority::Low => 0,
        ThumbnailPriority::Normal => 1,
        ThumbnailPriority::High => 2,
    }
}

impl ThumbnailPriority {
    /// The numeric rank of this priority.
    pub fn rank(self) -> (r: u8)
        ensures
            r as nat == priority_rank(self),
    {
        match self {
            ThumbnailPriority::Low => 0,
            ThumbnailPriority::Normal => 1,
            ThumbnailPriority::High => 2,
        }
    }

    /// Whether `self` outranks `other`.
    pub fn is_higher_than(self, other: ThumbnailPriority) -> (r: bool)
        ensures
            r == (priority_rank(self) > priority_rank(other)),
    {
        self.rank() > other.rank()
    }
}

impl Default for ThumbnailPriority {
    fn default() -> (r: Self)
        ensures
            r == ThumbnailPriority::Normal,
    {
        ThumbnailPriority::Normal
    }
}

/// What is known of one thumbnail.
#[derive(Clone, Debug, PartialEq, Eq)]
pub enum ThumbnailStatus {
    Missing,
    Queued { priority: ThumbnailPriority },
    InProgress,
    Ready,
    Failed { message: String },
}

impl ThumbnailStatus {
    /// A copy of this status.
    pub fn duplicate(&self) -> (r: ThumbnailStatus)
        ensures
            r == *self,
    {
        match self {
            ThumbnailStatus::Missing => ThumbnailStatus::Missing,
            ThumbnailStatus::Queued { priority } => ThumbnailStatus::Queued { priority: *priority },
            ThumbnailStatus::InProgress => ThumbnailStatus::InProgress,
            ThumbnailStatus::Ready => ThumbnailStatus::Ready,
            ThumbnailStatus::Failed { message } => ThumbnailStatus::Failed { message: message.clone() },
        }
    }
}

/// A request for the thumbnail of one asset.
#[derive(Clone, Debug, PartialEq, Eq)]
pub struct ThumbnailRequest {
    pub asset_id: u128,
    pub asset_type: u128,
    pub source_path: Option<String>,
    pub source_version: u64,
}

impl ThumbnailRequest {
    /// The key of the thumbnail this request asks for.
    pub open spec fn spec_key(&self) -> ThumbnailKey {
        ThumbnailKey { asset_id: self.asset_id, source_version: self.source_version }
    }

    /// The key of the thumbnail this request asks for: the asset id and the
    /// source version, nothing else.
    pub fn key(&self) -> (k: ThumbnailKey)
        ensures
            k == self.spec_key(),
    {
        ThumbnailKey { asset_id: self.asset_id, source_version: self.source_version }
    }

    /// A copy of this request.
    pub fn duplicate(&self) -> (r: ThumbnailRequest)
        ensures
            r == *self,
    {
        let source_path = match &self.source_path {
            Some(p) => Some(p.clone()),
            None => None,
        };
        ThumbnailRequest {
            asset_id: self.asset_id,
            asset_type: self.asset_type,
            source_path,
            source_version: self.source_version,
        }
    }
}

/// A queued request together with its priority and the order in which it was
/// requested (earlier requests carry smaller numbers).
#[derive(Clone, Debug, PartialEq, Eq)]
pub struct ThumbnailJob {
    pub request: ThumbnailRequest,
    pub priority: ThumbnailPriority,
    pub requested_at: u64,
}

impl ThumbnailJob {
    pub open spec fn spec_key(&self) -> ThumbnailKey {
        self.request.spec_key()
    }

    /// The key of the thumbnail this job produces.
    pub fn key(&self) -> (k: ThumbnailKey)
        ensures
            k == self.spec_key(),
    {
        self.request.key()
    }
}

} // verus!
