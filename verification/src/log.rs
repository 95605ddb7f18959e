use vstd::prelude::*;

verus! {

/// How severe a message is, from least to most.
#[derive(Clone, Copy, Debug, PartialEq, Eq, Structural)]
pub enum Level {
    Debug,
    Info,
    Warn,
    Error,
    Fatal,
}

/// The position of `level` in the order of severity.
pub open spec fn rank(level: Level) -> int {
    match level {
        Level::Debug => 0,
        Level::Info => 1,
        Level::Warn => 2,
        Level::Error => 3,
        Level::Fatal => 4,
    }
}

impl Level {
    /// The position of the level in the order of severity.
    pub fn rank(&self) -> (r: u8)
        ensures
            r == rank(*self),
    {
        match self {
            Level::Debug => 0,
            Level::Info => 1,
            Level::Warn => 2,
            Level::Error => 3,
            Level::Fatal => 4,
        }
    }
}

/// Whether a message of level `message` is shown under the level `threshold`: when it is
/// at least as severe.
pub fn is_shown(threshold: Level, message: Level) -> (shown: bool)
    ensures
        shown == (rank(threshold) <= rank(message)),
{
    threshold.rank() <= message.rank()
}

/// The log level of a process: set at most once, `Debug` until then.
pub struct LevelSetting {
    level: Option<Level>,
}

/// Setting the log level a second time.
pub struct LevelSetTwice;

impl LevelSetting {
    /// What has been set, if anything.
    pub closed spec fn spec_level(&self) -> Option<Level> {
        self.level
    }

    /// A setting that nothing has set yet.
    pub fn new() -> (setting: Self)
        ensures
            setting.spec_level() is None,
    {
        LevelSetting { level: None }
    }

    /// The log level: what was set, else `Debug`.
    pub fn level(&self) -> (level: Level)
        ensures
            level == reported(self.spec_level()),
    {
        match self.level {
            Some(l) => l,
            None => Level::Debug,
        }
    }

    /// Sets the log level, unless it was set before: then the earlier level stays and the
    /// result is an error.
    pub fn set_level(&mut self, level: Level) -> (r: Result<(), LevelSetTwice>)
        ensures
            final(self).spec_level() == after_setting(old(self).spec_level(), level),
            r is Ok <==> old(self).spec_level() is None,
    {
        match self.level {
            None => {
                self.level = Some(level);
                Ok(())
            },
            Some(_) => Err(LevelSetTwice),
        }
    }
}

/// What is set after setting `level` where `before` was set: the first level set stays.
pub open spec fn after_setting(before: Option<Level>, level: Level) -> Option<Level> {
    match before {
        Some(l) => Some(l),
        None => Some(level),
    }
}

/// The log level that a setting reports where `set` was set.
pub open spec fn reported(set: Option<Level>) -> Level {
    match set {
        Some(l) => l,
        None => Level::Debug,
    }
}

/// The first level set is the one reported from then on, whatever is set after it.
pub proof fn lemma_first_setting_stays(first: Level, later: Seq<Level>)
    ensures
        reported(later.fold_left(after_setting(None, first), |set: Option<Level>, l: Level| after_setting(set, l)))
            == first,
    decreases later.len(),
{
    if later.len() > 0 {
        lemma_first_setting_stays(first, later.drop_last());
        later.lemma_fold_left_split(after_setting(None, first), |set: Option<Level>, l: Level| after_setting(set, l), later.len() - 1);
    }
}

} // verus!
