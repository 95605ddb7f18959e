use crate::path::{join, joined};
use crate::string_map::StringMap;
use vstd::prelude::*;

verus! {

/// The settings of a project, defaults applied.
pub struct Main {
    pub cache: Cache,
    pub vagrantfile: Option<String>,
    pub life_cycle: LifeCycle,
    pub tests: Tests,
    pub variables: StringMap<String>,
    pub staging: Environment,
    pub production: Environment,
}

/// The cache folder and the files in it.
pub struct Cache {
    pub folder: String,
    pub scripts: String,
    pub ssh_configuration: String,
    pub vagrantfile: String,
}

/// The commands of the life cycle of a project.
pub struct LifeCycle {
    pub provision: Vec<String>,
    pub build: Vec<String>,
    pub deploy: Vec<String>,
    pub move_to_next_version: Vec<String>,
}

/// The commands that test a project.
pub struct Tests {
    pub base: Vec<String>,
    pub smoke: Vec<String>,
    pub acceptance: Vec<String>,
}

/// An environment that a project is deployed to, with its variables.
pub struct Environment {
    pub id: String,
    pub variables: StringMap<String>,
}

/// The settings as the configuration file gives them.
pub struct UserFacingMain {
    pub cache_folder: Option<String>,
    pub vagrantfile: Option<String>,
    pub life_cycle: UserFacingLifeCycle,
    pub tests: UserFacingTests,
    pub environment_variables: UserFacingEnvironmentVariables,
}

/// The life cycle commands as the configuration file gives them; empty means default.
pub struct UserFacingLifeCycle {
    pub provision: Vec<String>,
    pub build: Vec<String>,
    pub deploy: Vec<String>,
    pub move_to_next_version: Vec<String>,
}

/// The test commands as the configuration file gives them; empty means default.
pub struct UserFacingTests {
    pub base: Vec<String>,
    pub smoke: Vec<String>,
    pub acceptance: Vec<String>,
}

/// The variables that the configuration file adds to each environment.
pub struct UserFacingEnvironmentVariables {
    pub staging: StringMap<String>,
    pub production: StringMap<String>,
}

/// The cache folder unless the configuration file names one.
pub const DEFAULT_CACHE_FOLDER: &'static str = ".kerek";

/// The paths of the cache files in `folder`.
pub open spec fn cache_of(folder: Seq<char>, cache: Cache) -> bool {
    &&& cache.folder@ == folder
    &&& cache.scripts@ == joined(folder, "scripts.sh"@)
    &&& cache.ssh_configuration@ == joined(folder, "ssh_configuration"@)
    &&& cache.vagrantfile@ == joined(folder, "Vagrantfile"@)
}

/// The cache folder `folder` and the files in it.
pub fn get_cache(folder: String) -> (cache: Cache)
    ensures
        cache_of(folder@, cache),
{
    Cache {
        scripts: join(folder.as_str(), "scripts.sh"),
        ssh_configuration: join(folder.as_str(), "ssh_configuration"),
        vagrantfile: join(folder.as_str(), "Vagrantfile"),
        folder,
    }
}

/// `command`, or, if it is empty, the command that runs the function `default` of the
/// scripts file with Bash.
pub open spec fn command_or_default_spec(
    command: Seq<Seq<char>>,
    scripts: Seq<char>,
    default: Seq<char>,
) -> Seq<Seq<char>> {
    if command.len() == 0 {
        seq!["bash"@, "--"@, scripts, default]
    } else {
        command
    }
}

/// `command`, or, if it is empty, the command that runs the function `default` of the
/// scripts file of `cache` with Bash.
pub fn command_or_default(command: Vec<String>, cache: &Cache, default: &str) -> (result: Vec<
    String,
>)
    ensures
        result.deep_view() == command_or_default_spec(command.deep_view(), cache.scripts@, default@),
{
    if command.len() == 0 {
        let mut result: Vec<String> = Vec::new();
        result.push("bash".to_owned());
        result.push("--".to_owned());
        result.push(cache.scripts.clone());
        result.push(default.to_owned());
        assert(result.deep_view() == seq!["bash"@, "--"@, cache.scripts@, default@]);
        result
    } else {
        command
    }
}

/// Each command of the life cycle and of the tests runs something: none is empty.
pub proof fn lemma_commands_never_empty(command: Seq<Seq<char>>, scripts: Seq<char>, default: Seq<char>)
    ensures
        command_or_default_spec(command, scripts, default).len() > 0,
{
}

/// The life cycle commands, defaults applied.
pub open spec fn life_cycle_of(given: UserFacingLifeCycle, scripts: Seq<char>, life_cycle: LifeCycle) -> bool {
    &&& life_cycle.provision.deep_view() == command_or_default_spec(
        given.provision.deep_view(),
        scripts,
        "provision"@,
    )
    &&& life_cycle.build.deep_view() == command_or_default_spec(given.build.deep_view(), scripts, "build"@)
    &&& life_cycle.deploy.deep_view() == command_or_default_spec(
        given.deploy.deep_view(),
        scripts,
        "deploy"@,
    )
    &&& life_cycle.move_to_next_version.deep_view() == command_or_default_spec(
        given.move_to_next_version.deep_view(),
        scripts,
        "move_to_next_version"@,
    )
}

/// The life cycle commands, defaults applied.
pub fn get_life_cycle(cache: &Cache, life_cycle: UserFacingLifeCycle) -> (result: LifeCycle)
    ensures
        life_cycle_of(life_cycle, cache.scripts@, result),
{
    let ghost given = life_cycle;
    LifeCycle {
        provision: command_or_default(life_cycle.provision, cache, "provision"),
        build: command_or_default(life_cycle.build, cache, "build"),
        deploy: command_or_default(life_cycle.deploy, cache, "deploy"),
        move_to_next_version: command_or_default(
            life_cycle.move_to_next_version,
            cache,
            "move_to_next_version",
        ),
    }
}

/// The test commands, defaults applied.
pub open spec fn tests_of(given: UserFacingTests, scripts: Seq<char>, tests: Tests) -> bool {
    &&& tests.base.deep_view() == command_or_default_spec(given.base.deep_view(), scripts, "base_test"@)
    &&& tests.smoke.deep_view() == command_or_default_spec(
        given.smoke.deep_view(),
        scripts,
        "smoke_test"@,
    )
    &&& tests.acceptance.deep_view() == command_or_default_spec(
        given.acceptance.deep_view(),
        scripts,
        "acceptance_test"@,
    )
}

/// The test commands, defaults applied.
pub fn get_tests(cache: &Cache, tests: UserFacingTests) -> (result: Tests)
    ensures
        tests_of(tests, cache.scripts@, result),
{
    Tests {
        base: command_or_default(tests.base, cache, "base_test"),
        smoke: command_or_default(tests.smoke, cache, "smoke_test"),
        acceptance: command_or_default(tests.acceptance, cache, "acceptance_test"),
    }
}

/// The variables that every command gets.
pub fn get_variables() -> (variables: StringMap<String>)
    ensures
        variables@ == Map::<Seq<char>, Seq<char>>::empty().insert(
            "KEREK_GIT_BRANCH"@,
            "origin/main"@,
        ),
{
    let mut variables = StringMap::new();
    variables.insert("KEREK_GIT_BRANCH".to_owned(), "origin/main".to_owned());
    variables
}

/// `environment` with `custom_variables` added, each replacing a variable of the same
/// name.
pub fn with_custom_variables(environment: Environment, custom_variables: &StringMap<String>) -> (result: Environment)
    ensures
        result.id == environment.id,
        result.variables@ == environment.variables@.union_prefer_right(custom_variables@),
{
    let Environment { id, variables } = environment;
    let mut variables = variables;
    let ghost start = variables@;
    let entries = custom_variables.entries();
    let mut i: usize = 0;
    assert(entries@.take(0) == Seq::<(String, String)>::empty());
    assert(start.union_prefer_right(crate::string_map::entries_map(entries@.take(0))) == start);
    while i < entries.len()
        invariant
            i <= entries.len(),
            crate::string_map::entries_map(entries@) == custom_variables@,
            variables@ == start.union_prefer_right(crate::string_map::entries_map(entries@.take(i as int))),
        decreases entries.len() - i,
    {
        let ghost before = variables@;
        variables.insert(entries[i].0.clone(), entries[i].1.clone());
        proof {
            let taken = entries@.take(i + 1);
            assert(taken.drop_last() == entries@.take(i as int));
            assert(taken.last() == entries@[i as int]);
            assert(variables@ =~= start.union_prefer_right(crate::string_map::entries_map(taken)));
        }
        i = i + 1;
    }
    assert(entries@.take(entries.len() as int) == entries@);
    Environment { id, variables }
}

/// The staging environment: a virtual machine at a fixed address, reached with the SSH
/// configuration in the cache, with `custom_variables` added.
pub fn get_staging(cache: &Cache, custom_variables: &StringMap<String>) -> (environment: Environment)
    ensures
        environment.id@ == "staging"@,
        environment.variables@ == Map::<Seq<char>, Seq<char>>::empty().insert(
            "KEREK_IP_ADDRESS"@,
            "192.168.60.158"@,
        ).insert("KEREK_SSH_CONFIGURATION"@, cache.ssh_configuration@).insert(
            "KEREK_SSH_HOST"@,
            "staging"@,
        ).union_prefer_right(custom_variables@),
{
    let mut variables = StringMap::new();
    variables.insert("KEREK_IP_ADDRESS".to_owned(), "192.168.60.158".to_owned());
    variables.insert("KEREK_SSH_CONFIGURATION".to_owned(), cache.ssh_configuration.clone());
    variables.insert("KEREK_SSH_HOST".to_owned(), "staging".to_owned());
    with_custom_variables(Environment { id: "staging".to_owned(), variables }, custom_variables)
}

/// The production environment, reached with the SSH configuration in the folder `safe`,
/// with `custom_variables` added.
pub fn get_production(custom_variables: &StringMap<String>) -> (environment: Environment)
    ensures
        environment.id@ == "production"@,
        environment.variables@ == Map::<Seq<char>, Seq<char>>::empty().insert(
            "KEREK_SSH_CONFIGURATION"@,
            joined("safe"@, "ssh_configuration"@),
        ).union_prefer_right(custom_variables@),
{
    let mut variables = StringMap::new();
    variables.insert("KEREK_SSH_CONFIGURATION".to_owned(), join("safe", "ssh_configuration"));
    with_custom_variables(Environment { id: "production".to_owned(), variables }, custom_variables)
}

/// The settings that the configuration file `main` gives, defaults applied.
pub fn convert(main: UserFacingMain) -> (result: Main)
    ensures
        cache_of(
            match main.cache_folder {
                Some(f) => f@,
                None => DEFAULT_CACHE_FOLDER@,
            },
            result.cache,
        ),
        result.vagrantfile == main.vagrantfile,
        life_cycle_of(main.life_cycle, result.cache.scripts@, result.life_cycle),
        tests_of(main.tests, result.cache.scripts@, result.tests),
        result.variables@ == Map::<Seq<char>, Seq<char>>::empty().insert(
            "KEREK_GIT_BRANCH"@,
            "origin/main"@,
        ),
        result.staging.id@ == "staging"@,
        result.staging.variables@ == Map::<Seq<char>, Seq<char>>::empty().insert(
            "KEREK_IP_ADDRESS"@,
            "192.168.60.158"@,
        ).insert("KEREK_SSH_CONFIGURATION"@, result.cache.ssh_configuration@).insert(
            "KEREK_SSH_HOST"@,
            "staging"@,
        ).union_prefer_right(main.environment_variables.staging@),
        result.production.id@ == "production"@,
        result.production.variables@ == Map::<Seq<char>, Seq<char>>::empty().insert(
            "KEREK_SSH_CONFIGURATION"@,
            joined("safe"@, "ssh_configuration"@),
        ).union_prefer_right(main.environment_variables.production@),
{
    let folder = match main.cache_folder {
        Some(f) => f,
        None => DEFAULT_CACHE_FOLDER.to_owned(),
    };
    let cache = get_cache(folder);
    let vagrantfile = main.vagrantfile;
    let life_cycle = get_life_cycle(&cache, main.life_cycle);
    let tests = get_tests(&cache, main.tests);
    let variables = get_variables();
    let staging = get_staging(&cache, &main.environment_variables.staging);
    let production = get_production(&main.environment_variables.production);
    Main { cache, vagrantfile, life_cycle, tests, variables, staging, production }
}

} // verus!
