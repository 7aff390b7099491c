//! Where a disposable file for a test lives, and where it is seeded from.
use crate::path::{is_file_name, join_path, joined, lemma_file_name_stays_below, names_a_file};
use vstd::prelude::*;

verus! {

/// The environment variable that names the root of the project.
pub const PROJECT_ROOT_VARIABLE: &'static str = "CARGO_MANIFEST_DIR";

/// The directory below the root of the project that holds the source files.
pub const FIXTURES_DIRECTORY: &'static str = "tests/fixtures";

/// What stands in for the root of the project where the environment does not
/// name it. No such directory exists, so copying from below it fails.
pub open spec fn missing_root() -> Seq<char> {
    "Failed to get the "@ + PROJECT_ROOT_VARIABLE@ + " environment variable"@
}

/// The root that source files are looked up under.
pub open spec fn root_or_stand_in(project_root: Option<Seq<char>>) -> Seq<char> {
    match project_root {
        Some(root) => root,
        None => missing_root(),
    }
}

/// The path of the source file `filename` below the root of the project.
pub open spec fn source_path(root: Seq<char>, filename: Seq<char>) -> Seq<char> {
    joined(joined(joined(Seq::empty(), root), FIXTURES_DIRECTORY@), filename)
}

/// What a [`TemporaryFileFixture`] stands for.
pub struct FixtureView {
    /// The temporary directory that the fixture lives in.
    pub directory: Seq<char>,
    /// The name that the fixture was asked for under: a file name.
    pub filename: Seq<char>,
    /// The path of the fixture's file.
    pub path: Seq<char>,
    /// The path of the file that the fixture is copied from; empty for a
    /// blank fixture.
    pub source: Seq<char>,
}

/// A fixture lies below its directory: its name is a file name, and its path
/// is the name joined to the directory, so the directory starts the path.
pub open spec fn lies_below_directory(fixture: FixtureView) -> bool {
    &&& is_file_name(fixture.filename)
    &&& fixture.path == joined(fixture.directory, fixture.filename)
    &&& fixture.directory.is_prefix_of(fixture.path)
}

/// The view of an optional root.
pub open spec fn root_of(project_root: Option<&str>) -> Option<Seq<char>> {
    match project_root {
        Some(root) => Some(root@),
        None => None,
    }
}

/// A file for a test in a temporary directory, blank or copied from a source
/// file below the root of the project.
pub struct TemporaryFileFixture {
    directory: String,
    filename: String,
    path: String,
    source: String,
}

impl View for TemporaryFileFixture {
    type V = FixtureView;

    closed spec fn view(&self) -> FixtureView {
        FixtureView {
            directory: self.directory@,
            filename: self.filename@,
            path: self.path@,
            source: self.source@,
        }
    }
}

impl TemporaryFileFixture {
    /// Every fixture lies below its directory.
    #[verifier::type_invariant]
    closed spec fn stays_below(&self) -> bool {
        lies_below_directory(self@)
    }

    /// A fixture named `fixture_filename` in the temporary directory
    /// `directory`, with no source. Its file is not made: the path is where
    /// the caller will make it. A name that is not a file name, and so could
    /// lead out of the directory, is refused.
    pub fn blank(directory: &str, fixture_filename: &str) -> (fixture: Option<Self>)
        ensures
            fixture is Some <==> is_file_name(fixture_filename@),
            fixture matches Some(made) ==> made@ == (FixtureView {
                directory: directory@,
                filename: fixture_filename@,
                path: joined(directory@, fixture_filename@),
                source: Seq::empty(),
            }),
            fixture matches Some(made) ==> directory@.is_prefix_of(made@.path),
    {
        if !names_a_file(fixture_filename) {
            return None;
        }
        proof {
            lemma_file_name_stays_below(directory@, fixture_filename@);
        }
        Some(
            TemporaryFileFixture {
                directory: String::from_str(directory),
                filename: String::from_str(fixture_filename),
                path: join_path(directory, fixture_filename),
                source: String::new(),
            },
        )
    }

    /// A fixture named `fixture_filename` in the temporary directory
    /// `directory`, to be copied from the file of that name in the fixtures
    /// directory below `project_root`. Without a root the source lies below a
    /// stand-in that does not exist. A name that is not a file name is
    /// refused.
    pub fn copy(directory: &str, project_root: Option<&str>, fixture_filename: &str) -> (fixture:
        Option<Self>)
        ensures
            fixture is Some <==> is_file_name(fixture_filename@),
            fixture matches Some(made) ==> made@ == (FixtureView {
                directory: directory@,
                filename: fixture_filename@,
                path: joined(directory@, fixture_filename@),
                source: source_path(root_or_stand_in(root_of(project_root)), fixture_filename@),
            }),
            fixture matches Some(made) ==> directory@.is_prefix_of(made@.path),
    {
        let blank = match Self::blank(directory, fixture_filename) {
            Some(blank) => blank,
            None => {
                return None;
            },
        };
        let root = match project_root {
            Some(root) => String::from_str(root),
            None => {
                let mut stand_in = String::from_str("Failed to get the ");
                stand_in.append(PROJECT_ROOT_VARIABLE);
                stand_in.append(" environment variable");
                stand_in
            },
        };
        let below_root = join_path("", root.as_str());
        proof {
            reveal_strlit("");
            assert(""@ == Seq::<char>::empty());
        }
        let below_fixtures = join_path(below_root.as_str(), FIXTURES_DIRECTORY);
        let source = join_path(below_fixtures.as_str(), fixture_filename);
        Some(
            TemporaryFileFixture {
                directory: blank.directory,
                filename: blank.filename,
                path: blank.path,
                source,
            },
        )
    }

    /// The path of the fixture's file, which lies below the fixture's
    /// directory.
    pub fn get_path(&self) -> (path: &str)
        ensures
            path@ == self@.path,
            lies_below_directory(self@),
    {
        proof {
            use_type_invariant(self);
        }
        self.path.as_str()
    }

    /// The path of the file that the fixture is copied from; empty for a
    /// blank fixture.
    pub fn get_source(&self) -> (source: &str)
        ensures
            source@ == self@.source,
    {
        self.source.as_str()
    }
}

} // verus!
