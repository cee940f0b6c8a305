//! Test and suite definitions.

use crate::errors::ErrorView;
use crate::errors::KirkError;
use crate::text;
use crate::textmap::TextMap;
use vstd::prelude::*;
use vstd::string::*;

verus! {

/// Definition of a single test to execute.
#[derive(Debug, PartialEq, Eq)]
pub struct Test {
    name: String,
    command: String,
    cwd: Option<String>,
    env: TextMap,
    args: Vec<String>,
    parallelizable: bool,
}

/// What a test is.
#[verifier::ext_equal]
pub struct TestView {
    /// Name of the test.
    pub name: Seq<char>,
    /// Command to execute.
    pub command: Seq<char>,
    /// Working directory of the command.
    pub cwd: Option<Seq<char>>,
    /// Environment variables of the command.
    pub env: Map<Seq<char>, Seq<char>>,
    /// Arguments of the command.
    pub args: Seq<Seq<char>>,
    /// Whether the test can run in parallel.
    pub parallelizable: bool,
}

impl View for Test {
    type V = TestView;

    closed spec fn view(&self) -> TestView {
        TestView {
            name: self.name@,
            command: self.command@,
            cwd: text::opt_text(self.cwd),
            env: self.env@,
            args: text::texts(self.args@),
            parallelizable: self.parallelizable,
        }
    }
}

/// A test with nothing but a name and a command.
pub open spec fn bare_test(name: Seq<char>, command: Seq<char>) -> TestView {
    TestView {
        name,
        command,
        cwd: None,
        env: Map::empty(),
        args: Seq::empty(),
        parallelizable: false,
    }
}

/// Command line of a test: the command and its arguments, with blanks between.
pub open spec fn command_line(t: TestView) -> Seq<char> {
    if t.args.len() == 0 {
        t.command
    } else {
        t.command + " "@ + text::joined(t.args, " "@)
    }
}

impl Clone for Test {
    fn clone(&self) -> (r: Self)
        ensures
            r@ == self@,
    {
        Test {
            name: self.name.clone(),
            command: self.command.clone(),
            cwd: text::copy_opt(&self.cwd),
            env: self.env.clone(),
            args: text::copy_texts(&self.args),
            parallelizable: self.parallelizable,
        }
    }
}

impl Test {
    /// Create a new test definition; name and command must not be empty.
    pub fn new(name: &str, command: &str) -> (r: Result<Self, KirkError>)
        ensures
            match r {
                Ok(t) => name@.len() > 0 && command@.len() > 0 && t@ == bare_test(name@, command@),
                Err(e) => if name@.len() == 0 {
                    e@ == ErrorView::Framework("Test must have a name"@)
                } else {
                    command@.len() == 0 && e@ == ErrorView::Framework("Test must have a command"@)
                },
            },
    {
        if name.is_empty() {
            return Err(KirkError::Framework(text::owned("Test must have a name")));
        }
        if command.is_empty() {
            return Err(KirkError::Framework(text::owned("Test must have a command")));
        }
        let t = Test {
            name: name.to_owned(),
            command: command.to_owned(),
            cwd: None,
            env: TextMap::new(),
            args: Vec::new(),
            parallelizable: false,
        };
        assert(t@.args =~= Seq::<Seq<char>>::empty());
        Ok(t)
    }

    /// Set the command arguments.
    pub fn with_args(self, args: Vec<String>) -> (r: Self)
        ensures
            r@ == (TestView { args: text::texts(args@), ..self@ }),
    {
        let mut t = self;
        t.args = args;
        t
    }

    /// Set the working directory of the command.
    pub fn with_cwd(self, cwd: &str) -> (r: Self)
        ensures
            r@ == (TestView { cwd: Some(cwd@), ..self@ }),
    {
        let mut t = self;
        t.cwd = Some(cwd.to_owned());
        t
    }

    /// Set the environment variables used to run the command.
    pub fn with_env(self, env: TextMap) -> (r: Self)
        ensures
            r@ == (TestView { env: env@, ..self@ }),
    {
        let mut t = self;
        t.env = env;
        t
    }

    /// Set whether the test can run in parallel.
    pub fn with_parallelizable(self, parallelizable: bool) -> (r: Self)
        ensures
            r@ == (TestView { parallelizable, ..self@ }),
    {
        let mut t = self;
        t.parallelizable = parallelizable;
        t
    }

    /// Name of the test.
    pub fn name(&self) -> (r: &str)
        ensures
            r@ == self@.name,
    {
        self.name.as_str()
    }

    /// Command to execute.
    pub fn command(&self) -> (r: &str)
        ensures
            r@ == self@.command,
    {
        self.command.as_str()
    }

    /// Arguments of the command.
    pub fn arguments(&self) -> (r: &[String])
        ensures
            text::texts(r@) == self@.args,
    {
        self.args.as_slice()
    }

    /// Whether the test can run in parallel.
    pub fn parallelizable(&self) -> (r: bool)
        ensures
            r == self@.parallelizable,
    {
        self.parallelizable
    }

    /// Working directory of the command, if any.
    pub fn cwd(&self) -> (r: Option<&str>)
        ensures
            text::opt_str(r) == self@.cwd,
    {
        text::borrow_opt(&self.cwd)
    }

    /// Environment variables used to run the command.
    pub fn env(&self) -> (r: &TextMap)
        ensures
            r@ == self@.env,
    {
        &self.env
    }

    /// Full command line, with arguments appended.
    pub fn full_command(&self) -> (r: String)
        ensures
            r@ == command_line(self@),
    {
        if self.args.len() == 0 {
            self.command.clone()
        } else {
            let args = text::join(&self.args, " ");
            text::cat3(self.command.as_str(), " ", args.as_str())
        }
    }

    /// Force the test to be parallelizable.
    pub fn force_parallel(&mut self)
        ensures
            final(self)@ == (TestView { parallelizable: true, ..old(self)@ }),
    {
        self.parallelizable = true;
    }
}

/// What tests are.
pub open spec fn test_views(v: Seq<Test>) -> Seq<TestView> {
    v.map_values(|t: Test| t@)
}

/// Copy of tests.
pub fn copy_tests(v: &Vec<Test>) -> (r: Vec<Test>)
    ensures
        test_views(r@) == test_views(v@),
{
    copy_slice(v.as_slice())
}

/// Copy of tests in a slice.
pub fn copy_slice(v: &[Test]) -> (r: Vec<Test>)
    ensures
        test_views(r@) == test_views(v@),
{
    let mut r: Vec<Test> = Vec::new();
    let mut i: usize = 0;
    while i < v.len()
        invariant
            i <= v@.len(),
            test_views(r@) =~= test_views(v@).take(i as int),
        decreases v@.len() - i,
    {
        let ghost before = r@;
        let t = v[i].clone();
        r.push(t);
        assert(test_views(r@) =~= test_views(before).push(t@));
        i = i + 1;
    }
    assert(test_views(r@) =~= test_views(v@));
    r
}

/// Testing suite definition.
#[derive(Debug, PartialEq, Eq)]
pub struct Suite {
    name: String,
    tests: Vec<Test>,
}

/// What a suite is.
#[verifier::ext_equal]
pub struct SuiteView {
    /// Name of the suite.
    pub name: Seq<char>,
    /// Tests of the suite, in order.
    pub tests: Seq<TestView>,
}

impl View for Suite {
    type V = SuiteView;

    closed spec fn view(&self) -> SuiteView {
        SuiteView { name: self.name@, tests: test_views(self.tests@) }
    }
}

impl Clone for Suite {
    fn clone(&self) -> (r: Self)
        ensures
            r@ == self@,
    {
        Suite { name: self.name.clone(), tests: copy_tests(&self.tests) }
    }
}

impl Suite {
    /// Create a new suite.
    pub fn new(name: &str, tests: Vec<Test>) -> (r: Self)
        ensures
            r@ == (SuiteView { name: name@, tests: test_views(tests@) }),
    {
        Suite { name: name.to_owned(), tests }
    }

    /// Name of the testing suite.
    pub fn name(&self) -> (r: &str)
        ensures
            r@ == self@.name,
    {
        self.name.as_str()
    }

    /// Set the suite name; it must not be empty.
    pub fn set_name(&mut self, value: &str) -> (r: Result<(), KirkError>)
        ensures
            match r {
                Ok(_) => value@.len() > 0 && final(self)@ == (SuiteView {
                    name: value@,
                    ..old(self)@
                }),
                Err(e) => {
                    &&& value@.len() == 0
                    &&& e@ == ErrorView::Framework("empty suite name"@)
                    &&& final(self)@ == old(self)@
                },
            },
    {
        if value.is_empty() {
            return Err(KirkError::Framework(text::owned("empty suite name")));
        }
        self.name = value.to_owned();
        Ok(())
    }

    /// Tests of the suite.
    pub fn tests(&self) -> (r: &[Test])
        ensures
            test_views(r@) == self@.tests,
    {
        self.tests.as_slice()
    }
}

/// Arguments follow the command in their order, each behind one blank: an
/// argument more stands at the end of the line.
pub proof fn arguments_follow_the_command(t: TestView, arg: Seq<char>)
    ensures
        command_line(TestView { args: t.args.push(arg), ..t }) == command_line(t) + " "@ + arg,
        command_line(TestView { args: Seq::empty(), ..t }) == t.command,
{
    let more = t.args.push(arg);
    assert(more.drop_last() =~= t.args);
    if t.args.len() == 0 {
        assert(text::joined(more, " "@) == arg);
    } else {
        assert(text::joined(more, " "@) == text::joined(t.args, " "@) + " "@ + arg);
        assert(t.command + " "@ + (text::joined(t.args, " "@) + " "@ + arg) =~= t.command + " "@
            + text::joined(t.args, " "@) + " "@ + arg);
    }
}

} // verus!
