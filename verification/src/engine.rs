//! Script engines: how one is set up for a request, and what is read off an evaluation.

use vstd::prelude::*;

use crate::cli::Args;
use crate::text;
use crate::value;

verus! {

/// An engine that runs mq scripts: a `mq_lang::DefaultEngine`. Running one is left to the caller:
/// a script may print, read files, or end the process.
#[verifier::external_body]
pub struct ScriptEngine {
    pub engine: mq_lang::DefaultEngine,
}

/// The model of an engine: whether it has the built-in functions, where it looks for modules, and
/// the texts that scripts can refer to by name.
pub ghost struct EngineView {
    pub builtins: bool,
    pub paths: Seq<std::path::PathBuf>,
    pub strings: Map<Seq<char>, Seq<char>>,
}

/// How an engine is set up.
pub uninterp spec fn engine_view(engine: ScriptEngine) -> EngineView;

/// The engine that nothing was set up in.
pub open spec fn bare_engine() -> EngineView {
    EngineView { builtins: false, paths: Seq::empty(), strings: Map::empty() }
}

/// `DefaultEngine::default` makes an engine in which nothing is set up.
#[verifier::external_body]
fn new_engine() -> (made: ScriptEngine)
    ensures
        engine_view(made) == bare_engine(),
{
    ScriptEngine { engine: mq_lang::DefaultEngine::default() }
}

/// `Engine::load_builtin_module` adds the built-in functions.
#[verifier::external_body]
fn load_builtins(script_engine: &mut ScriptEngine)
    requires
        engine_view(*old(script_engine)) == bare_engine(),
    ensures
        engine_view(*final(script_engine)) == (EngineView { builtins: true, ..bare_engine() }),
{
    script_engine.engine.load_builtin_module();
}

/// `Engine::set_search_paths` replaces the directories in which modules are looked for.
#[verifier::external_body]
fn set_search_paths(script_engine: &mut ScriptEngine, paths: &Vec<std::path::PathBuf>)
    ensures
        engine_view(*final(script_engine)) == (EngineView {
            paths: paths@,
            ..engine_view(*old(script_engine))
        }),
{
    script_engine.engine.set_search_paths(paths.clone());
}

/// `Engine::define_string_value` gives a text a name, under which a script finds it; a text that
/// had the name before is no longer found.
#[verifier::external_body]
fn define_string(script_engine: &mut ScriptEngine, name: &str, content: &str)
    ensures
        engine_view(*final(script_engine)) == (EngineView {
            strings: engine_view(*old(script_engine)).strings.insert(name@, content@),
            ..engine_view(*old(script_engine))
        }),
{
    script_engine.engine.define_string_value(name, content);
}

/// The pairs of neighbours in a list; what is left over at the end is in none.
pub open spec fn pairs_of(list: Seq<Seq<char>>) -> Seq<(Seq<char>, Seq<char>)> {
    Seq::new(list.len() / 2, |i: int| (list[2 * i], list[2 * i + 1]))
}

/// The pairs of neighbours in a list that may not be there.
pub open spec fn given_pairs(list: Option<Vec<String>>) -> Seq<(Seq<char>, Seq<char>)> {
    match list {
        Some(list) => pairs_of(text::string_views(list@)),
        None => seq![],
    }
}

/// The named texts with these pairs added in their order.
pub open spec fn defined(
    strings: Map<Seq<char>, Seq<char>>,
    pairs: Seq<(Seq<char>, Seq<char>)>,
) -> Map<Seq<char>, Seq<char>>
    decreases pairs.len(),
{
    if pairs.len() == 0 {
        strings
    } else {
        defined(strings, pairs.drop_last()).insert(pairs.last().0, pairs.last().1)
    }
}

/// The engine that the settings ask for.
pub open spec fn engine_for(args: Args) -> EngineView {
    EngineView {
        builtins: true,
        paths: match args.module_directories {
            Some(paths) => paths@,
            None => Seq::empty(),
        },
        strings: defined(Map::empty(), given_pairs(args.args)),
    }
}

/// Create a new engine for each request.
/// The engine is fully isolated so concurrent requests never share state.
pub fn create_engine(args: &Args) -> (made: ScriptEngine)
    ensures
        engine_view(made) == engine_for(*args),
{
    let mut made = new_engine();
    load_builtins(&mut made);
    if let Some(paths) = &args.module_directories {
        set_search_paths(&mut made, paths);
    }
    if let Some(list) = &args.args {
        let ghost start = engine_view(made);
        let ghost pairs = given_pairs(args.args);
        let size: usize = list.len();
        let count: usize = size / 2;
        let mut i: usize = 0;
        proof {
            assert(pairs.take(0) =~= seq![]);
        }
        while i < count
            invariant
                i <= count,
                size == list@.len(),
                count == size / 2,
                pairs == pairs_of(text::string_views(list@)),
                engine_view(made) == (EngineView {
                    strings: defined(start.strings, pairs.take(i as int)),
                    ..start
                }),
            decreases count - i,
        {
            proof {
                assert(pairs.take(i + 1).drop_last() =~= pairs.take(i as int));
                assert(pairs.take(i + 1).last() == pairs[i as int]);
            }
            define_string(&mut made, list[2 * i].as_str(), list[2 * i + 1].as_str());
            i += 1;
        }
        assert(pairs.take(count as int) =~= pairs);
    }
    made
}

/// What came of reading a file.
#[derive(Debug)]
pub enum FileRead {
    /// There is no such file.
    Missing,
    Content(String),
    /// The file is there, but cannot be read.
    Failed,
}

/// The model of a [`FileRead`].
pub ghost enum ReadView {
    Missing,
    Content(Seq<char>),
    Failed,
}

impl View for FileRead {
    type V = ReadView;

    open spec fn view(&self) -> ReadView {
        match self {
            FileRead::Missing => ReadView::Missing,
            FileRead::Content(content) => ReadView::Content(content@),
            FileRead::Failed => ReadView::Failed,
        }
    }
}

/// What came of reading some files.
pub open spec fn read_views(list: Seq<FileRead>) -> Seq<ReadView> {
    list.map_values(|r: FileRead| r@)
}

/// The names and the contents of the files that were read, up to the first that could not be. A
/// file that is not there is left out.
pub open spec fn loaded(pairs: Seq<(Seq<char>, Seq<char>)>, reads: Seq<ReadView>) -> Seq<
    (Seq<char>, Seq<char>),
>
    decreases pairs.len(),
{
    if pairs.len() == 0 || reads.len() == 0 {
        seq![]
    } else {
        match reads[0] {
            ReadView::Missing => loaded(pairs.drop_first(), reads.drop_first()),
            ReadView::Content(content) => seq![(pairs[0].0, content)] + loaded(
                pairs.drop_first(),
                reads.drop_first(),
            ),
            ReadView::Failed => seq![],
        }
    }
}

/// The first of the files that could not be read.
pub open spec fn first_failed(
    pairs: Seq<(Seq<char>, Seq<char>)>,
    reads: Seq<ReadView>,
) -> Option<int>
    decreases pairs.len(),
{
    if pairs.len() == 0 || reads.len() == 0 {
        None
    } else if reads[0] is Failed {
        Some(0)
    } else {
        match first_failed(pairs.drop_first(), reads.drop_first()) {
            Some(i) => Some(i + 1),
            None => None,
        }
    }
}

/// The paths of the files that the settings name, in their order.
pub fn raw_file_paths(args: &Args) -> (paths: Vec<String>)
    ensures
        text::string_views(paths@) == given_pairs(args.raw_file).map_values(
            |p: (Seq<char>, Seq<char>)| p.1,
        ),
{
    let ghost pairs = given_pairs(args.raw_file);
    let mut paths: Vec<String> = Vec::new();
    if let Some(list) = &args.raw_file {
        let size: usize = list.len();
        let count: usize = size / 2;
        let mut i: usize = 0;
        while i < count
            invariant
                i <= count,
                size == list@.len(),
                count == size / 2,
                pairs == pairs_of(text::string_views(list@)),
                paths@.len() == i,
                forall|j: int| 0 <= j < i ==> (#[trigger] paths@[j])@ == pairs[j].1,
            decreases count - i,
        {
            paths.push(list[2 * i + 1].clone());
            i += 1;
        }
    }
    assert(text::string_views(paths@) =~= pairs.map_values(|p: (Seq<char>, Seq<char>)| p.1));
    paths
}

/// The named texts with one pair added before others.
proof fn lemma_defined_first(
    strings: Map<Seq<char>, Seq<char>>,
    first: (Seq<char>, Seq<char>),
    rest: Seq<(Seq<char>, Seq<char>)>,
)
    ensures
        defined(strings, seq![first] + rest) == defined(strings.insert(first.0, first.1), rest),
    decreases rest.len(),
{
    let all = seq![first] + rest;
    if rest.len() == 0 {
        assert(all.drop_last() =~= seq![]);
        assert(all.last() == first);
        assert(defined(strings, all.drop_last()) == strings);
    } else {
        assert(all.drop_last() =~= seq![first] + rest.drop_last());
        assert(all.last() == rest.last());
        lemma_defined_first(strings, first, rest.drop_last());
    }
}

/// Load raw file contents as named string values into the engine. What came of reading the files
/// is given in their order; the first that could not be read ends the loading.
pub fn load_raw_files(
    script_engine: &mut ScriptEngine,
    args: &Args,
    reads: &Vec<FileRead>,
) -> (done: Result<(), usize>)
    ensures
        engine_view(*final(script_engine)) == (EngineView {
            strings: defined(
                engine_view(*old(script_engine)).strings,
                loaded(given_pairs(args.raw_file), read_views(reads@)),
            ),
            ..engine_view(*old(script_engine))
        }),
        match done {
            Ok(_) => first_failed(given_pairs(args.raw_file), read_views(reads@)) is None,
            Err(i) => first_failed(given_pairs(args.raw_file), read_views(reads@)) == Some(
                i as int,
            ),
        },
{
    let ghost pairs = given_pairs(args.raw_file);
    let ghost views = read_views(reads@);
    let ghost start = engine_view(*script_engine);
    if let Some(list) = &args.raw_file {
        let size: usize = list.len();
        let count: usize = size / 2;
        let mut i: usize = 0;
        proof {
            assert(pairs.skip(0) =~= pairs);
            assert(views.skip(0) =~= views);
        }
        while i < count && i < reads.len()
            invariant
                i <= count,
                i <= reads@.len(),
                size == list@.len(),
                count == size / 2,
                pairs == pairs_of(text::string_views(list@)),
                pairs == given_pairs(args.raw_file),
                views == read_views(reads@),
                start == engine_view(*old(script_engine)),
                engine_view(*script_engine).builtins == start.builtins,
                engine_view(*script_engine).paths == start.paths,
                defined(start.strings, loaded(pairs, views)) == defined(
                    engine_view(*script_engine).strings,
                    loaded(pairs.skip(i as int), views.skip(i as int)),
                ),
                first_failed(pairs, views) == (match first_failed(
                    pairs.skip(i as int),
                    views.skip(i as int),
                ) {
                    Some(k) => Some(k + i),
                    None => None,
                }),
            decreases count - i,
        {
            let ghost before = engine_view(*script_engine).strings;
            proof {
                assert(pairs.skip(i as int).drop_first() =~= pairs.skip(i + 1));
                assert(views.skip(i as int).drop_first() =~= views.skip(i + 1));
                assert(pairs.skip(i as int)[0] == pairs[i as int]);
                assert(views.skip(i as int)[0] == reads@[i as int]@);
            }
            match &reads[i] {
                FileRead::Missing => {},
                FileRead::Content(content) => {
                    define_string(script_engine, list[2 * i].as_str(), content.as_str());
                    proof {
                        lemma_defined_first(
                            before,
                            (pairs[i as int].0, content@),
                            loaded(pairs.skip(i + 1), views.skip(i + 1)),
                        );
                    }
                },
                FileRead::Failed => {
                    return Err(i);
                },
            }
            i += 1;
        }
    }
    Ok(())
}

/// An error of the mq runtime.
#[verifier::external_type_specification]
#[verifier::external_body]
pub struct ExScriptError(mq_lang::Error);

/// What the `Debug` of an error of the mq runtime writes.
pub uninterp spec fn error_text(error: mq_lang::Error) -> Seq<char>;

/// The `Debug` of `mq_lang::Error` writes a text that depends on the error alone.
#[verifier::external_body]
fn describe(error: &mq_lang::Error) -> (text: String)
    ensures
        text@ == error_text(*error),
{
    format!("{:?}", error)
}

/// What comes of running a script: the values that it gives, or what is said of its failure.
#[derive(Debug)]
pub enum Outcome {
    Values(Vec<value::ScriptValue>),
    Failed(String),
}

/// The model of an [`Outcome`].
pub ghost enum OutcomeView {
    Values(Seq<value::ValueView>),
    Failed(Seq<char>),
}

impl View for Outcome {
    type V = OutcomeView;

    open spec fn view(&self) -> OutcomeView {
        match self {
            Outcome::Values(values) => OutcomeView::Values(value::value_views(values@)),
            Outcome::Failed(text) => OutcomeView::Failed(text@),
        }
    }
}

/// What an evaluation holds.
pub open spec fn evaluated(
    result: Result<Vec<mq_lang::RuntimeValue>, Box<mq_lang::Error>>,
) -> OutcomeView {
    match result {
        Ok(values) => OutcomeView::Values(value::runtime_views(values@)),
        Err(error) => OutcomeView::Failed(error_text(*error)),
    }
}

/// Read off what `Engine::eval` came to.
pub fn read_outcome(result: Result<Vec<mq_lang::RuntimeValue>, Box<mq_lang::Error>>) -> (outcome:
    Outcome)
    ensures
        outcome@ == evaluated(result),
        outcome@ matches OutcomeView::Values(values) ==> forall|i: int|
            0 <= i < values.len() ==> value::is_sound(#[trigger] values[i]),
{
    match result {
        Ok(values) => {
            let mut copies: Vec<value::ScriptValue> = Vec::new();
            let mut i: usize = 0;
            while i < values.len()
                invariant
                    i <= values@.len(),
                    copies@.len() == i,
                    forall|j: int|
                        0 <= j < i ==> (#[trigger] copies@[j])@ == value::runtime_view(values@[j])
                            && value::is_sound(copies@[j]@),
                decreases values@.len() - i,
            {
                copies.push(value::read_value(&values[i]));
                i += 1;
            }
            assert(value::value_views(copies@) =~= value::runtime_views(values@));
            Outcome::Values(copies)
        },
        Err(error) => Outcome::Failed(describe(&error)),
    }
}

/// A script finds the text that its name was last given to, and no text under a name that none was
/// given to.
pub proof fn law_last_definition_is_found(
    strings: Map<Seq<char>, Seq<char>>,
    pairs: Seq<(Seq<char>, Seq<char>)>,
    name: Seq<char>,
)
    ensures
        match value::last_of(pairs, name) {
            Some(content) => defined(strings, pairs).contains_key(name) && defined(
                strings,
                pairs,
            )[name] == content,
            None => defined(strings, pairs).contains_key(name) == strings.contains_key(name)
                && defined(strings, pairs)[name] == strings[name],
        },
    decreases pairs.len(),
{
    if pairs.len() > 0 {
        law_last_definition_is_found(strings, pairs.drop_last(), name);
    }
}

/// Reading all files loads each that is there, in order.
pub proof fn law_readable_files_are_loaded(
    pairs: Seq<(Seq<char>, Seq<char>)>,
    reads: Seq<ReadView>,
)
    requires
        pairs.len() == reads.len(),
        forall|i: int| 0 <= i < reads.len() ==> (#[trigger] reads[i]) is Content,
    ensures
        first_failed(pairs, reads) is None,
        loaded(pairs, reads) == Seq::new(pairs.len(), |i: int| (pairs[i].0, reads[i]->Content_0)),
    decreases pairs.len(),
{
    let wanted = Seq::new(pairs.len(), |i: int| (pairs[i].0, reads[i]->Content_0));
    if pairs.len() > 0 {
        let rest = reads.drop_first();
        assert forall|i: int| 0 <= i < rest.len() implies (#[trigger] rest[i]) is Content by {
            assert(rest[i] == reads[i + 1]);
        }
        assert(reads[0] is Content);
        law_readable_files_are_loaded(pairs.drop_first(), rest);
    }
    assert(loaded(pairs, reads) =~= wanted);
}

/// The pairs of a list are its neighbours two by two, from the front; what is left over is in none.
pub proof fn law_pairs(list: Seq<Seq<char>>, i: int)
    ensures
        pairs_of(list).len() == list.len() / 2,
        0 <= i < list.len() / 2 ==> pairs_of(list)[i].0 == list[2 * i] && pairs_of(list)[i].1
            == list[2 * i + 1],
        given_pairs(None).len() == 0,
{
}

/// An engine has the built-in functions, looks for modules in the directories that the settings
/// name and in no others, and finds under each name the text that was last given to it.
pub proof fn law_engine_follows_settings(args: Args, list: Vec<String>, i: int)
    ensures
        engine_for(args).builtins,
        args.module_directories matches Some(paths) ==> engine_for(args).paths == paths@,
        args.module_directories is None ==> engine_for(args).paths.len() == 0,
        args.args is None ==> engine_for(args).strings == Map::<Seq<char>, Seq<char>>::empty(),
        args.args == Some(list) && 0 <= i < list@.len() / 2 && (forall|j: int|
            i < j < list@.len() / 2 ==> (#[trigger] list@[2 * j])@ != list@[2 * i]@) ==> engine_for(
            args,
        ).strings.contains_key(list@[2 * i]@) && engine_for(args).strings[list@[2 * i]@]
            == list@[2 * i + 1]@,
{
    if args.args == Some(list) && 0 <= i < list@.len() / 2 && (forall|j: int|
        i < j < list@.len() / 2 ==> (#[trigger] list@[2 * j])@ != list@[2 * i]@) {
        let pairs = pairs_of(text::string_views(list@));
        assert(pairs[i] == (list@[2 * i]@, list@[2 * i + 1]@));
        assert forall|j: int| i < j < pairs.len() implies (#[trigger] pairs[j]).0
            != pairs[i].0 by {
            assert(pairs[j].0 == list@[2 * j]@);
        }
        lemma_defined_last(Map::empty(), pairs, i);
    }
}

/// A name that no later pair repeats has the text of its pair.
proof fn lemma_defined_last(
    strings: Map<Seq<char>, Seq<char>>,
    pairs: Seq<(Seq<char>, Seq<char>)>,
    i: int,
)
    requires
        0 <= i < pairs.len(),
        forall|j: int| i < j < pairs.len() ==> (#[trigger] pairs[j]).0 != pairs[i].0,
    ensures
        defined(strings, pairs).contains_key(pairs[i].0),
        defined(strings, pairs)[pairs[i].0] == pairs[i].1,
    decreases pairs.len(),
{
    if i < pairs.len() - 1 {
        let before = pairs.drop_last();
        assert(before[i] == pairs[i]);
        assert forall|j: int| i < j < before.len() implies (#[trigger] before[j]).0
            != before[i].0 by {
            assert(before[j] == pairs[j]);
        }
        lemma_defined_last(strings, before, i);
        assert(pairs.last() == pairs[pairs.len() - 1]);
    }
}

/// Of files, the first is loaded where it was read, passed over where it is not there, and ends the
/// loading where it could not be read; the others follow.
pub proof fn law_files_one_by_one(
    pair: (Seq<char>, Seq<char>),
    pairs: Seq<(Seq<char>, Seq<char>)>,
    read: ReadView,
    reads: Seq<ReadView>,
)
    ensures
        ({
            let all = seq![pair] + pairs;
            let given = seq![read] + reads;
            &&& read matches ReadView::Content(content) ==> loaded(all, given) == seq![
                (pair.0, content),
            ] + loaded(pairs, reads)
            &&& read is Missing ==> loaded(all, given) == loaded(pairs, reads)
            &&& read is Failed ==> loaded(all, given).len() == 0 && first_failed(all, given)
                == Some(0int)
            &&& !(read is Failed) ==> first_failed(all, given) == (match first_failed(
                pairs,
                reads,
            ) {
                Some(i) => Some(i + 1),
                None => None,
            })
        }),
        loaded(seq![], reads).len() == 0,
        first_failed(seq![], reads) is None,
{
    assert((seq![pair] + pairs).drop_first() =~= pairs);
    assert((seq![read] + reads).drop_first() =~= reads);
}

/// What came of reading a file, and of running a script, holds what its parts hold.
pub proof fn law_outcome_views(read: FileRead, outcome: Outcome, i: int)
    ensures
        match read {
            FileRead::Missing => read@ == ReadView::Missing,
            FileRead::Content(content) => read@ == ReadView::Content(content@),
            FileRead::Failed => read@ == ReadView::Failed,
        },
        match outcome {
            Outcome::Values(values) => outcome@ matches OutcomeView::Values(views) && views.len()
                == values@.len() && (0 <= i < values@.len() ==> views[i] == values@[i]@),
            Outcome::Failed(said) => outcome@ == OutcomeView::Failed(said@),
        },
{
}

/// What an evaluation holds is its values, one by one, or what its error says.
pub proof fn law_evaluated(
    values: Vec<mq_lang::RuntimeValue>,
    error: Box<mq_lang::Error>,
    i: int,
)
    ensures
        evaluated(Ok(values)) matches OutcomeView::Values(views) && views.len() == values@.len() && (
        0 <= i < values@.len() ==> views[i] == value::runtime_view(values@[i])),
        evaluated(Err(error)) == OutcomeView::Failed(error_text(*error)),
{
}

/// The pairs that the settings give are those of the list, where there is one.
pub proof fn law_given_pairs(list: Vec<String>, i: int)
    ensures
        given_pairs(Some(list)).len() == list@.len() / 2,
        0 <= i < list@.len() / 2 ==> given_pairs(Some(list))[i] == (
            list@[2 * i]@,
            list@[2 * i + 1]@,
        ),
{
}

} // verus!
