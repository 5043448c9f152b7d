use vstd::prelude::*;

verus! {

/// A build time written as YYYYMMDD.HHMMSS: fifteen characters, a dot at position 8 and
/// decimal digits everywhere else.
pub open spec fn is_build_timestamp(s: Seq<char>) -> bool {
    &&& s.len() == 15
    &&& s[8] == '.'
    &&& forall|i: int| 0 <= i < 15 && i != 8 ==> '0' <= #[trigger] s[i] <= '9'
}

/// The short form of a commit hash: its first seven characters, or the whole hash when it
/// is shorter.
pub open spec fn short_hash(hash: Seq<char>) -> Seq<char> {
    if hash.len() >= 7 { hash.subrange(0, 7) } else { hash }
}

/// The build string: the version, a dot, and the build time.
pub open spec fn build_string_of(version: Seq<char>, timestamp: Seq<char>) -> Seq<char> {
    version + "."@ + timestamp
}

/// Facts about the build: package version, build time, commit, platform and profile, and
/// on macOS the bundle version. The short hash and the build string are derived from the
/// others when the value is made, and the build time has the form YYYYMMDD.HHMMSS.
pub struct BuildInfo {
    version: String,
    build_timestamp: String,
    git_hash: String,
    git_hash_short: String,
    target_platform: String,
    build_profile: String,
    build_string: String,
    bundle_version: Option<String>,
}

impl BuildInfo {
    #[verifier::type_invariant]
    spec fn derived_fields_agree(&self) -> bool {
        &&& is_build_timestamp(self.build_timestamp@)
        &&& self.git_hash_short@ == short_hash(self.git_hash@)
        &&& self.build_string@ == build_string_of(self.version@, self.build_timestamp@)
    }

    pub closed spec fn spec_version(&self) -> Seq<char> {
        self.version@
    }

    pub closed spec fn spec_build_timestamp(&self) -> Seq<char> {
        self.build_timestamp@
    }

    pub closed spec fn spec_git_hash(&self) -> Seq<char> {
        self.git_hash@
    }

    pub closed spec fn spec_target_platform(&self) -> Seq<char> {
        self.target_platform@
    }

    pub closed spec fn spec_build_profile(&self) -> Seq<char> {
        self.build_profile@
    }

    pub closed spec fn spec_bundle_version(&self) -> Option<Seq<char>> {
        match self.bundle_version {
            Some(b) => Some(b@),
            None => None,
        }
    }

    /// The facts of a build; the short hash and the build string are derived here.
    pub fn new(version: String, build_timestamp: String, git_hash: String, target_platform: String,
        build_profile: String, bundle_version: Option<String>) -> (r: Self)
        requires
            is_build_timestamp(build_timestamp@),
        ensures
            r.spec_version() == version@,
            r.spec_build_timestamp() == build_timestamp@,
            r.spec_git_hash() == git_hash@,
            r.spec_target_platform() == target_platform@,
            r.spec_build_profile() == build_profile@,
            r.spec_bundle_version() == match bundle_version {
                Some(b) => Some(b@),
                None => None::<Seq<char>>,
            },
    {
        let n = git_hash.as_str().unicode_len();
        let git_hash_short = if n >= 7 {
            String::from_str(git_hash.as_str().substring_char(0, 7))
        } else {
            git_hash.clone()
        };
        let mut build_string = version.clone();
        build_string.append(".");
        build_string.append(build_timestamp.as_str());
        proof {
            reveal_strlit(".");
        }
        BuildInfo {
            version,
            build_timestamp,
            git_hash,
            git_hash_short,
            target_platform,
            build_profile,
            build_string,
            bundle_version,
        }
    }

    pub fn version(&self) -> (r: &str)
        ensures
            r@ == self.spec_version(),
    {
        self.version.as_str()
    }

    /// The build time, in the form YYYYMMDD.HHMMSS.
    pub fn build_timestamp(&self) -> (r: &str)
        ensures
            r@ == self.spec_build_timestamp(),
            is_build_timestamp(r@),
    {
        proof {
            use_type_invariant(self);
        }
        self.build_timestamp.as_str()
    }

    pub fn git_hash(&self) -> (r: &str)
        ensures
            r@ == self.spec_git_hash(),
    {
        self.git_hash.as_str()
    }

    /// The first seven characters of the commit hash.
    pub fn git_hash_short(&self) -> (r: &str)
        ensures
            r@ == short_hash(self.spec_git_hash()),
    {
        proof {
            use_type_invariant(self);
        }
        self.git_hash_short.as_str()
    }

    pub fn target_platform(&self) -> (r: &str)
        ensures
            r@ == self.spec_target_platform(),
    {
        self.target_platform.as_str()
    }

    pub fn build_profile(&self) -> (r: &str)
        ensures
            r@ == self.spec_build_profile(),
    {
        self.build_profile.as_str()
    }

    /// The version and the build time, joined by a dot.
    pub fn build_string(&self) -> (r: &str)
        ensures
            r@ == build_string_of(self.spec_version(), self.spec_build_timestamp()),
    {
        proof {
            use_type_invariant(self);
        }
        self.build_string.as_str()
    }

    /// The bundle version; present on macOS builds only.
    pub fn bundle_version(&self) -> (r: Option<&str>)
        ensures
            match self.spec_bundle_version() {
                Some(b) => r matches Some(s) && s@ == b,
                None => r is None,
            },
    {
        match &self.bundle_version {
            Some(b) => Some(b.as_str()),
            None => None,
        }
    }

    /// "VERSION (TIMESTAMP)".
    pub fn display_version(&self) -> (r: String)
        ensures
            r@ == self.spec_version() + " ("@ + self.spec_build_timestamp() + ")"@,
    {
        let mut s = self.version.clone();
        s.append(" (");
        s.append(self.build_timestamp.as_str());
        s.append(")");
        s
    }

    /// The lines "Version: ...", "Build: ...", "Commit: ..." (short hash), "Platform: ...",
    /// "Profile: ...", and on macOS "Bundle: ...", joined by newlines.
    pub fn detailed_info(&self) -> (r: String)
        ensures
            r@ == "Version: "@ + self.spec_version() + "\nBuild: "@ + self.spec_build_timestamp()
                + "\nCommit: "@ + short_hash(self.spec_git_hash()) + "\nPlatform: "@ + self.spec_target_platform()
                + "\nProfile: "@ + self.spec_build_profile()
                + match self.spec_bundle_version() {
                    Some(b) => "\nBundle: "@ + b,
                    None => Seq::<char>::empty(),
                },
    {
        proof {
            use_type_invariant(self);
        }
        let mut s = String::from_str("Version: ");
        s.append(self.version.as_str());
        s.append("\nBuild: ");
        s.append(self.build_timestamp.as_str());
        s.append("\nCommit: ");
        s.append(self.git_hash_short.as_str());
        s.append("\nPlatform: ");
        s.append(self.target_platform.as_str());
        s.append("\nProfile: ");
        s.append(self.build_profile.as_str());
        let ghost base = s@;
        match &self.bundle_version {
            Some(b) => {
                s.append("\nBundle: ");
                s.append(b.as_str());
            },
            None => {
                assert(s@ == base + Seq::<char>::empty());
            },
        }
        s
    }

    /// The bundle version, or the empty string off macOS.
    pub fn bundle_version_display(&self) -> (r: &str)
        ensures
            r@ == match self.spec_bundle_version() {
                Some(b) => b,
                None => Seq::<char>::empty(),
            },
    {
        match &self.bundle_version {
            Some(b) => b.as_str(),
            None => {
                proof {
                    reveal_strlit("");
                }
                ""
            },
        }
    }
}

} // verus!
