//! Configuration of one backup cycle: archive strategy, compression
//! codec and level, archive file permissions, and the directories and
//! flags the orchestrator works with.
//!
//! Everything here is pure: the application reads the environment and
//! hands the raw values in; `validate_config` turns them into a
//! `Configuration` or reports the first invalid one.

use vstd::prelude::*;

use crate::error::Error;
use crate::text::{eq_ignore_case, lower_chars, parse_u32_chars, parse_u32_trimmed, trim_chars};

verus! {

/// Whether all backup units share one archive file or each gets its own.
#[derive(Clone, Copy, Debug, PartialEq, Eq, Structural)]
pub enum ArchiveStrategy {
    Multiple,
    Single,
}

/// The compression codec applied to archive bytes.
#[derive(Clone, Copy, Debug, PartialEq, Eq, Structural)]
pub enum ArchiveCompression {
    Bzip2,
    Gzip,
    Xz,
    Zstd,
}

/// POSIX-style access granted to one class (group or other) on the
/// archive files that a cycle produces.
#[derive(Clone, Copy, Debug, PartialEq, Eq, Structural)]
pub enum ArchivePermission {
    Read,
    Write,
    NoAccess,
}

impl Default for ArchiveStrategy {
    /// The strategy used when none is configured.
    fn default() -> (r: Self)
        ensures
            r == ArchiveStrategy::Multiple,
    {
        ArchiveStrategy::Multiple
    }
}

impl Default for ArchiveCompression {
    /// The codec used when none is configured.
    fn default() -> (r: Self)
        ensures
            r == ArchiveCompression::Gzip,
    {
        ArchiveCompression::Gzip
    }
}

impl Default for ArchivePermission {
    /// The access level used when none is configured.
    fn default() -> (r: Self)
        ensures
            r == ArchivePermission::Read,
    {
        ArchivePermission::Read
    }
}

/// The strategy a value denotes, compared case-insensitively.
pub open spec fn strategy_of(s: Seq<char>) -> Option<ArchiveStrategy> {
    let l = lower_chars(s);
    if l == "s"@ || l == "single"@ {
        Some(ArchiveStrategy::Single)
    } else if l == "m"@ || l == "multiple"@ {
        Some(ArchiveStrategy::Multiple)
    } else {
        None
    }
}

/// The codec a value denotes, compared case-insensitively.
pub open spec fn compression_of(s: Seq<char>) -> Option<ArchiveCompression> {
    let l = lower_chars(s);
    if l == "bzip2"@ || l == "bzip"@ || l == "bz2"@ {
        Some(ArchiveCompression::Bzip2)
    } else if l == "gz"@ || l == "gzip"@ {
        Some(ArchiveCompression::Gzip)
    } else if l == "xz"@ {
        Some(ArchiveCompression::Xz)
    } else if l == "zstd"@ || l == "zst"@ {
        Some(ArchiveCompression::Zstd)
    } else {
        None
    }
}

/// The access level a value denotes, compared case-insensitively.
pub open spec fn permission_of(s: Seq<char>) -> Option<ArchivePermission> {
    let l = lower_chars(s);
    if l == "read"@ || l == "r"@ {
        Some(ArchivePermission::Read)
    } else if l == "write"@ || l == "w"@ || l == "read-write"@ || l == "rw"@ {
        Some(ArchivePermission::Write)
    } else if l == "none"@ || l == "n"@ || l == Seq::<char>::empty() {
        Some(ArchivePermission::NoAccess)
    } else {
        None
    }
}

/// All the keyword literals above are already lowercase.
proof fn lemma_keywords_lowercase()
    ensures
        lower_chars("s"@) == "s"@,
        lower_chars("single"@) == "single"@,
        lower_chars("m"@) == "m"@,
        lower_chars("multiple"@) == "multiple"@,
        lower_chars("bzip2"@) == "bzip2"@,
        lower_chars("bzip"@) == "bzip"@,
        lower_chars("bz2"@) == "bz2"@,
        lower_chars("gz"@) == "gz"@,
        lower_chars("gzip"@) == "gzip"@,
        lower_chars("xz"@) == "xz"@,
        lower_chars("zstd"@) == "zstd"@,
        lower_chars("zst"@) == "zst"@,
        lower_chars("read"@) == "read"@,
        lower_chars("r"@) == "r"@,
        lower_chars("write"@) == "write"@,
        lower_chars("w"@) == "w"@,
        lower_chars("read-write"@) == "read-write"@,
        lower_chars("rw"@) == "rw"@,
        lower_chars("none"@) == "none"@,
        lower_chars("n"@) == "n"@,
        lower_chars("true"@) == "true"@,
        lower_chars(""@) == Seq::<char>::empty(),
{
    reveal_strlit("");
    reveal_strlit("s");
    reveal_strlit("single");
    reveal_strlit("m");
    reveal_strlit("multiple");
    reveal_strlit("bzip2");
    reveal_strlit("bzip");
    reveal_strlit("bz2");
    reveal_strlit("gz");
    reveal_strlit("gzip");
    reveal_strlit("xz");
    reveal_strlit("zstd");
    reveal_strlit("zst");
    reveal_strlit("read");
    reveal_strlit("r");
    reveal_strlit("write");
    reveal_strlit("w");
    reveal_strlit("read-write");
    reveal_strlit("rw");
    reveal_strlit("none");
    reveal_strlit("n");
    reveal_strlit("true");
    assert(lower_chars("s"@) =~= "s"@);
    assert(lower_chars("single"@) =~= "single"@);
    assert(lower_chars("m"@) =~= "m"@);
    assert(lower_chars("multiple"@) =~= "multiple"@);
    assert(lower_chars("bzip2"@) =~= "bzip2"@);
    assert(lower_chars("bzip"@) =~= "bzip"@);
    assert(lower_chars("bz2"@) =~= "bz2"@);
    assert(lower_chars("gz"@) =~= "gz"@);
    assert(lower_chars("gzip"@) =~= "gzip"@);
    assert(lower_chars("xz"@) =~= "xz"@);
    assert(lower_chars("zstd"@) =~= "zstd"@);
    assert(lower_chars("zst"@) =~= "zst"@);
    assert(lower_chars("read"@) =~= "read"@);
    assert(lower_chars("r"@) =~= "r"@);
    assert(lower_chars("write"@) =~= "write"@);
    assert(lower_chars("w"@) =~= "w"@);
    assert(lower_chars("read-write"@) =~= "read-write"@);
    assert(lower_chars("rw"@) =~= "rw"@);
    assert(lower_chars("none"@) =~= "none"@);
    assert(lower_chars("n"@) =~= "n"@);
    assert(lower_chars("true"@) =~= "true"@);
    assert(lower_chars(""@) =~= Seq::<char>::empty());
}

impl ArchiveStrategy {
    /// Parses a strategy name, case-insensitively.
    pub fn from_str(s: &str) -> (r: Result<Self, Error>)
        ensures
            match strategy_of(s@) {
                Some(v) => r == Ok::<ArchiveStrategy, Error>(v),
                None => r == Err::<ArchiveStrategy, Error>(Error::InvalidBackupType),
            },
    {
        proof {
            lemma_keywords_lowercase();
        }
        if eq_ignore_case(s, "s") || eq_ignore_case(s, "single") {
            Ok(ArchiveStrategy::Single)
        } else if eq_ignore_case(s, "m") || eq_ignore_case(s, "multiple") {
            Ok(ArchiveStrategy::Multiple)
        } else {
            Err(Error::InvalidBackupType)
        }
    }

    /// The canonical display name of the strategy.
    pub fn name(&self) -> (r: String)
        ensures
            r@ == self.name_chars(),
    {
        match self {
            ArchiveStrategy::Single => String::from_str("Single"),
            ArchiveStrategy::Multiple => String::from_str("Multiple"),
        }
    }

    /// What `name` returns.
    pub open spec fn name_chars(&self) -> Seq<char> {
        match self {
            ArchiveStrategy::Single => "Single"@,
            ArchiveStrategy::Multiple => "Multiple"@,
        }
    }
}

impl ArchiveCompression {
    /// Parses a codec name, case-insensitively.
    pub fn from_str(s: &str) -> (r: Result<Self, Error>)
        ensures
            match compression_of(s@) {
                Some(v) => r == Ok::<ArchiveCompression, Error>(v),
                None => r == Err::<ArchiveCompression, Error>(Error::InvalidCompressionType),
            },
    {
        proof {
            lemma_keywords_lowercase();
        }
        if eq_ignore_case(s, "bzip2") || eq_ignore_case(s, "bzip") || eq_ignore_case(s, "bz2") {
            Ok(ArchiveCompression::Bzip2)
        } else if eq_ignore_case(s, "gz") || eq_ignore_case(s, "gzip") {
            Ok(ArchiveCompression::Gzip)
        } else if eq_ignore_case(s, "xz") {
            Ok(ArchiveCompression::Xz)
        } else if eq_ignore_case(s, "zstd") || eq_ignore_case(s, "zst") {
            Ok(ArchiveCompression::Zstd)
        } else {
            Err(Error::InvalidCompressionType)
        }
    }

    /// The canonical display name of the codec.
    pub fn name(&self) -> (r: String)
        ensures
            r@ == self.name_chars(),
    {
        match self {
            ArchiveCompression::Bzip2 => String::from_str("BZip2"),
            ArchiveCompression::Gzip => String::from_str("GZip"),
            ArchiveCompression::Xz => String::from_str("XZ"),
            ArchiveCompression::Zstd => String::from_str("ZStd"),
        }
    }

    /// What `name` returns.
    pub open spec fn name_chars(&self) -> Seq<char> {
        match self {
            ArchiveCompression::Bzip2 => "BZip2"@,
            ArchiveCompression::Gzip => "GZip"@,
            ArchiveCompression::Xz => "XZ"@,
            ArchiveCompression::Zstd => "ZStd"@,
        }
    }

    /// The canonical file extension of the codec.
    pub fn extension(&self) -> (r: String)
        ensures
            r@ == self.extension_chars(),
    {
        match self {
            ArchiveCompression::Bzip2 => String::from_str("bz2"),
            ArchiveCompression::Gzip => String::from_str("gz"),
            ArchiveCompression::Xz => String::from_str("xz"),
            ArchiveCompression::Zstd => String::from_str("zst"),
        }
    }

    /// What `extension` returns.
    pub open spec fn extension_chars(&self) -> Seq<char> {
        match self {
            ArchiveCompression::Bzip2 => "bz2"@,
            ArchiveCompression::Gzip => "gz"@,
            ArchiveCompression::Xz => "xz"@,
            ArchiveCompression::Zstd => "zst"@,
        }
    }

    /// The level used when the configured one cannot be parsed.
    pub open spec fn spec_default_level(&self) -> u32 {
        6
    }

    /// The highest level the codec accepts.
    pub open spec fn spec_max_level(&self) -> u32 {
        match self {
            ArchiveCompression::Zstd => 22,
            _ => 9,
        }
    }

    /// The level used when the configured one cannot be parsed.
    pub fn default_level(&self) -> (r: u32)
        ensures
            r == self.spec_default_level(),
    {
        6
    }

    /// The highest level the codec accepts.
    pub fn max_level(&self) -> (r: u32)
        ensures
            r == self.spec_max_level(),
    {
        match self {
            ArchiveCompression::Zstd => 22,
            _ => 9,
        }
    }

    /// The level the codec uses for a configured value: the parsed
    /// number, clamped to the codec's maximum; the default when the
    /// value does not parse as a non-negative integer.
    pub open spec fn level_of(&self, s: Seq<char>) -> u32 {
        match parse_u32_chars(trim_chars(s)) {
            Some(level) => if level > self.spec_max_level() {
                self.spec_max_level()
            } else {
                level
            },
            None => self.spec_default_level(),
        }
    }

    /// Resolves a configured compression level, per `level_of`.
    pub fn parse_level(&self, value: &str) -> (r: u32)
        ensures
            r == self.level_of(value@),
    {
        match parse_u32_trimmed(value) {
            Some(level) => {
                let max_level = self.max_level();
                if level > max_level {
                    max_level
                } else {
                    level
                }
            },
            None => self.default_level(),
        }
    }
}

/// Law of level resolution, for every codec: a parsed value above the
/// codec's maximum yields the maximum; a parsed value within range is
/// kept unchanged; a value that does not parse as a non-negative
/// integer yields the codec's default.
pub proof fn lemma_level_resolution(c: ArchiveCompression, s: Seq<char>)
    ensures
        forall|l: u32|
            parse_u32_chars(trim_chars(s)) == Some(l) && l > c.spec_max_level() ==> c.level_of(s)
                == c.spec_max_level(),
        forall|l: u32|
            parse_u32_chars(trim_chars(s)) == Some(l) && l <= c.spec_max_level() ==> c.level_of(s)
                == l,
        parse_u32_chars(trim_chars(s)) is None ==> c.level_of(s) == c.spec_default_level(),
{
}

impl ArchivePermission {
    /// Parses an access level, case-insensitively.
    pub fn from_str(s: &str) -> (r: Result<Self, Error>)
        ensures
            match permission_of(s@) {
                Some(v) => r == Ok::<ArchivePermission, Error>(v),
                None => r == Err::<ArchivePermission, Error>(Error::InvalidPermission),
            },
    {
        proof {
            lemma_keywords_lowercase();
        }
        if eq_ignore_case(s, "read") || eq_ignore_case(s, "r") {
            Ok(ArchivePermission::Read)
        } else if eq_ignore_case(s, "write") || eq_ignore_case(s, "w") || eq_ignore_case(
            s,
            "read-write",
        ) || eq_ignore_case(s, "rw") {
            Ok(ArchivePermission::Write)
        } else if eq_ignore_case(s, "none") || eq_ignore_case(s, "n") || eq_ignore_case(s, "") {
            Ok(ArchivePermission::NoAccess)
        } else {
            Err(Error::InvalidPermission)
        }
    }

    /// The canonical display name of the access level.
    pub fn name(&self) -> (r: String)
        ensures
            r@ == self.name_chars(),
    {
        match self {
            ArchivePermission::Read => String::from_str("Read"),
            ArchivePermission::Write => String::from_str("Read-Write"),
            ArchivePermission::NoAccess => String::from_str("None"),
        }
    }

    /// What `name` returns.
    pub open spec fn name_chars(&self) -> Seq<char> {
        match self {
            ArchivePermission::Read => "Read"@,
            ArchivePermission::Write => "Read-Write"@,
            ArchivePermission::NoAccess => "None"@,
        }
    }
}

/// The file mode for a pair of access levels. The owner always has
/// read and write access; group and other get the bits their level
/// grants. The mapping is total over the nine combinations.
pub open spec fn permission_mode(group: ArchivePermission, other: ArchivePermission) -> u32 {
    match (group, other) {
        (ArchivePermission::Write, ArchivePermission::NoAccess) => 0o660,
        (ArchivePermission::Write, ArchivePermission::Read) => 0o664,
        (ArchivePermission::Write, ArchivePermission::Write) => 0o666,
        (ArchivePermission::Read, ArchivePermission::NoAccess) => 0o640,
        (ArchivePermission::Read, ArchivePermission::Read) => 0o644,
        (ArchivePermission::Read, ArchivePermission::Write) => 0o646,
        (ArchivePermission::NoAccess, ArchivePermission::NoAccess) => 0o600,
        (ArchivePermission::NoAccess, ArchivePermission::Read) => 0o604,
        (ArchivePermission::NoAccess, ArchivePermission::Write) => 0o606,
    }
}

/// Resolves the file mode for the two access classes, per
/// `permission_mode`.
pub fn get_permission(group: &ArchivePermission, other: &ArchivePermission) -> (r: u32)
    ensures
        r == permission_mode(*group, *other),
{
    match (group, other) {
        (ArchivePermission::Write, ArchivePermission::NoAccess) => 0o660,
        (ArchivePermission::Write, ArchivePermission::Read) => 0o664,
        (ArchivePermission::Write, ArchivePermission::Write) => 0o666,
        (ArchivePermission::Read, ArchivePermission::NoAccess) => 0o640,
        (ArchivePermission::Read, ArchivePermission::Read) => 0o644,
        (ArchivePermission::Read, ArchivePermission::Write) => 0o646,
        (ArchivePermission::NoAccess, ArchivePermission::NoAccess) => 0o600,
        (ArchivePermission::NoAccess, ArchivePermission::Read) => 0o604,
        (ArchivePermission::NoAccess, ArchivePermission::Write) => 0o606,
    }
}

/// The validated configuration of one backup cycle.
#[derive(Debug, PartialEq, Eq)]
pub struct Configuration {
    pub data_dir: String,
    pub backup_dir: String,
    pub archive_strategy: ArchiveStrategy,
    pub archive_compression: ArchiveCompression,
    pub archive_compression_level: u32,
    pub archive_prefix: String,
    pub group_permission: ArchivePermission,
    pub other_permission: ArchivePermission,
    pub stop_containers: bool,
    pub is_docker: bool,
    pub run_once: bool,
}

impl Configuration {
    /// Whether the cycle coordinates with the container runtime:
    /// only when running inside a container and told to stop others.
    pub fn container_management_enabled(&self) -> (r: bool)
        ensures
            r == (self.is_docker && self.stop_containers),
    {
        self.is_docker && self.stop_containers
    }

    /// The file mode applied to the archives this cycle produces.
    pub fn archive_permission(&self) -> (r: u32)
        ensures
            r == permission_mode(self.group_permission, self.other_permission),
    {
        get_permission(&self.group_permission, &self.other_permission)
    }
}

/// The raw configuration values as the application found them in the
/// environment; `None` where a key was unset.
pub struct RawSettings {
    pub data_dir: Option<String>,
    pub backup_dir: Option<String>,
    pub strategy: Option<String>,
    pub compression: Option<String>,
    pub compression_level: Option<String>,
    pub prefix: Option<String>,
    pub group_permission: Option<String>,
    pub other_permission: Option<String>,
    pub container_management: Option<String>,
    pub is_docker: Option<String>,
    pub run_once: Option<String>,
}

/// The characters of an optional setting, with its default.
pub open spec fn setting_chars(v: Option<String>, default: Seq<char>) -> Seq<char> {
    match v {
        Some(s) => s@,
        None => default,
    }
}

/// The strategy an optional setting denotes; unset means the default.
pub open spec fn strategy_setting(v: Option<String>) -> Option<ArchiveStrategy> {
    match v {
        Some(s) => strategy_of(s@),
        None => Some(ArchiveStrategy::Multiple),
    }
}

/// The codec an optional setting denotes; unset means the default.
pub open spec fn compression_setting(v: Option<String>) -> Option<ArchiveCompression> {
    match v {
        Some(s) => compression_of(s@),
        None => Some(ArchiveCompression::Gzip),
    }
}

/// The access level an optional setting denotes; unset means the default.
pub open spec fn permission_setting(v: Option<String>) -> Option<ArchivePermission> {
    match v {
        Some(s) => permission_of(s@),
        None => Some(ArchivePermission::Read),
    }
}

/// The flag an optional setting denotes: a set value means `true`
/// exactly when it equals "true" case-insensitively; unset means the
/// default.
pub open spec fn bool_setting_of(v: Option<String>, default: bool) -> bool {
    match v {
        Some(s) => lower_chars(s@) == "true"@,
        None => default,
    }
}

/// Resolves a flag setting, per `bool_setting_of`.
pub fn bool_setting(v: &Option<String>, default: bool) -> (r: bool)
    ensures
        r == bool_setting_of(*v, default),
{
    proof {
        lemma_keywords_lowercase();
    }
    match v {
        Some(s) => eq_ignore_case(s.as_str(), "true"),
        None => default,
    }
}

/// Validates the raw settings into a `Configuration`.
///
/// The two flags say whether the configured data and backup
/// directories exist as directories; the application checks them
/// since this library does no filesystem access. Parse failures are
/// reported first, in field order; then a missing data directory, then
/// a missing backup directory.
pub fn validate_config(raw: RawSettings, data_dir_is_dir: bool, backup_dir_is_dir: bool) -> (r:
    Result<Configuration, Error>)
    ensures
        strategy_setting(raw.strategy) is None ==> r == Err::<Configuration, Error>(
            Error::InvalidBackupType,
        ),
        strategy_setting(raw.strategy) is Some && compression_setting(raw.compression) is None
            ==> r == Err::<Configuration, Error>(Error::InvalidCompressionType),
        strategy_setting(raw.strategy) is Some && compression_setting(raw.compression) is Some
            && (permission_setting(raw.group_permission) is None || permission_setting(
            raw.other_permission,
        ) is None) ==> r == Err::<Configuration, Error>(Error::InvalidPermission),
        strategy_setting(raw.strategy) is Some && compression_setting(raw.compression) is Some
            && permission_setting(raw.group_permission) is Some && permission_setting(
            raw.other_permission,
        ) is Some && !data_dir_is_dir ==> (r matches Err(Error::NoVolumeMounted(p)) && p@
            == setting_chars(raw.data_dir, "/data"@)),
        strategy_setting(raw.strategy) is Some && compression_setting(raw.compression) is Some
            && permission_setting(raw.group_permission) is Some && permission_setting(
            raw.other_permission,
        ) is Some && data_dir_is_dir && !backup_dir_is_dir ==> (r matches Err(
            Error::NoVolumeMounted(p),
        ) && p@ == setting_chars(raw.backup_dir, "/backup"@)),
        r is Ok <==> strategy_setting(raw.strategy) is Some && compression_setting(
            raw.compression,
        ) is Some && permission_setting(raw.group_permission) is Some && permission_setting(
            raw.other_permission,
        ) is Some && data_dir_is_dir && backup_dir_is_dir,
        r is Ok ==> ({
            let c = r->Ok_0;
            &&& c.data_dir@ == setting_chars(raw.data_dir, "/data"@)
            &&& c.backup_dir@ == setting_chars(raw.backup_dir, "/backup"@)
            &&& Some(c.archive_strategy) == strategy_setting(raw.strategy)
            &&& Some(c.archive_compression) == compression_setting(raw.compression)
            &&& c.archive_compression_level == c.archive_compression.level_of(
                setting_chars(raw.compression_level, Seq::<char>::empty()),
            )
            &&& c.archive_prefix@ == setting_chars(raw.prefix, "salvage"@)
            &&& Some(c.group_permission) == permission_setting(raw.group_permission)
            &&& Some(c.other_permission) == permission_setting(raw.other_permission)
            &&& c.stop_containers == bool_setting_of(raw.container_management, true)
            &&& c.is_docker == bool_setting_of(raw.is_docker, false)
            &&& c.run_once == bool_setting_of(raw.run_once, false)
        }),
{
    let RawSettings {
        data_dir,
        backup_dir,
        strategy,
        compression,
        compression_level,
        prefix,
        group_permission,
        other_permission,
        container_management,
        is_docker,
        run_once,
    } = raw;

    let archive_strategy = match &strategy {
        Some(s) => match ArchiveStrategy::from_str(s.as_str()) {
            Ok(v) => v,
            Err(e) => {
                return Err(e);
            },
        },
        None => ArchiveStrategy::default(),
    };
    let archive_compression = match &compression {
        Some(s) => match ArchiveCompression::from_str(s.as_str()) {
            Ok(v) => v,
            Err(e) => {
                return Err(e);
            },
        },
        None => ArchiveCompression::default(),
    };
    let archive_compression_level = match &compression_level {
        Some(s) => archive_compression.parse_level(s.as_str()),
        None => archive_compression.parse_level(""),
    };
    proof {
        if compression_level is None {
            reveal_strlit("");
            assert(""@ =~= Seq::<char>::empty());
        }
    }
    let group_permission = match &group_permission {
        Some(s) => match ArchivePermission::from_str(s.as_str()) {
            Ok(v) => v,
            Err(e) => {
                return Err(e);
            },
        },
        None => ArchivePermission::default(),
    };
    let other_permission = match &other_permission {
        Some(s) => match ArchivePermission::from_str(s.as_str()) {
            Ok(v) => v,
            Err(e) => {
                return Err(e);
            },
        },
        None => ArchivePermission::default(),
    };
    let data_dir = match data_dir {
        Some(s) => s,
        None => String::from_str("/data"),
    };
    let backup_dir = match backup_dir {
        Some(s) => s,
        None => String::from_str("/backup"),
    };
    if !data_dir_is_dir {
        return Err(Error::NoVolumeMounted(data_dir));
    }
    if !backup_dir_is_dir {
        return Err(Error::NoVolumeMounted(backup_dir));
    }
    let archive_prefix = match prefix {
        Some(s) => s,
        None => String::from_str("salvage"),
    };
    let stop_containers = bool_setting(&container_management, true);
    let is_docker = bool_setting(&is_docker, false);
    let run_once = bool_setting(&run_once, false);

    Ok(
        Configuration {
            data_dir,
            backup_dir,
            archive_strategy,
            archive_compression,
            archive_compression_level,
            archive_prefix,
            group_permission,
            other_permission,
            stop_containers,
            is_docker,
            run_once,
        },
    )
}

} // verus!
