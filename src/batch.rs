//! A whole run, from the configuration and the inputs' text to the scripts to write.
use vstd::prelude::*;
use crate::config::Config;
use crate::dataset::{dataset_of, load_dataset};
use crate::partition::{partition, partitions_of};
use crate::script::{document_of, render_document, script_filename, script_filename_of};

verus! {

/// One script to write: its filename in the output directory, and its text.
#[derive(Debug)]
pub struct GeneratedScript {
    pub filename: String,
    pub contents: String,
}

/// The filename of script `j` of a run with this configuration.
pub open spec fn run_filename(config: Config, j: nat) -> Seq<char> {
    script_filename_of(config.template_file@, config.dataset_file@, j)
}

/// The text of script `j` of a run in the directory `cwd`, on a dataset file holding
/// `dataset_text` and a template body `body`.
pub open spec fn run_document(
    config: Config,
    cwd: Seq<char>,
    dataset_text: Seq<char>,
    body: Seq<char>,
    j: int,
) -> Seq<char> {
    document_of(cwd, partitions_of(dataset_of(dataset_text), config.script_count as nat)[j], body)
}

/// `scripts` are the scripts of a run in the directory `cwd`, on a dataset file holding
/// `dataset_text` and a template body `body`: one per group, in group order.
pub open spec fn is_run_output(
    scripts: Seq<GeneratedScript>,
    config: Config,
    cwd: Seq<char>,
    dataset_text: Seq<char>,
    body: Seq<char>,
) -> bool {
    &&& scripts.len() == config.script_count
    &&& forall|j: int|
        0 <= j < scripts.len() ==> #[trigger] scripts[j].filename@ == run_filename(config, j as nat)
            && scripts[j].contents@ == run_document(config, cwd, dataset_text, body, j)
}

/// Two runs on the same inputs give the same scripts, name for name and byte for byte.
pub proof fn lemma_runs_repeat(
    first: Seq<GeneratedScript>,
    second: Seq<GeneratedScript>,
    config: Config,
    cwd: Seq<char>,
    dataset_text: Seq<char>,
    body: Seq<char>,
)
    requires
        is_run_output(first, config, cwd, dataset_text, body),
        is_run_output(second, config, cwd, dataset_text, body),
    ensures
        first.len() == second.len(),
        forall|j: int|
            0 <= j < first.len() ==> #[trigger] first[j].filename@ == second[j].filename@
                && first[j].contents@ == second[j].contents@,
{
}

/// The scripts of a run in the directory `cwd`, on a dataset file holding `dataset_text`
/// and a template body `body`: one per group of the dataset, in group order.
pub fn generate_scripts(config: &Config, cwd: &str, dataset_text: &str, body: &str) -> (r: Vec<
    GeneratedScript,
>)
    requires
        config.wf(),
    ensures
        is_run_output(r@, *config, cwd@, dataset_text@, body@),
{
    let data = load_dataset(dataset_text);
    let groups = partition(&data, config.script_count);
    assert(groups.len() == groups.deep_view().len());
    let mut r: Vec<GeneratedScript> = Vec::new();
    let mut j: u8 = 0;
    while j < config.script_count
        invariant
            config.wf(),
            groups.deep_view() == partitions_of(dataset_of(dataset_text@), config.script_count as nat),
            groups.len() == config.script_count,
            j <= config.script_count,
            r.len() == j,
            forall|i: int|
                0 <= i < r.len() ==> #[trigger] r[i].filename@ == run_filename(*config, i as nat)
                    && r[i].contents@ == run_document(*config, cwd@, dataset_text@, body@, i),
        decreases config.script_count - j,
    {
        let filename = script_filename(
            config.template_file.as_str(),
            config.dataset_file.as_str(),
            j,
        );
        assert(groups.deep_view()[j as int] == groups[j as int].deep_view());
        let contents = render_document(cwd, &groups[j as usize], body);
        let ghost before = r@;
        r.push(GeneratedScript { filename, contents });
        assert(r@ == before.push(r@[j as int]));
        assert(r[j as int].filename@ == run_filename(*config, j as nat));
        assert(r[j as int].contents@ == run_document(*config, cwd@, dataset_text@, body@, j as int));
        j = j + 1;
    }
    r
}

} // verus!
