use musica::errors::Error;
use musica::errors::Field;
use musica::jobs::DISPATCH_CONCURRENCY;
use musica::jobs::DispatchJob;
use musica::jobs::Job;
use musica::jobs::JobQueue;
use musica::jobs::PARSER_CONCURRENCY;
use musica::jobs::ParserJob;
use musica::jobs::WorkerPool;
use musica::jobs::dispatch_main;
use musica::jobs::dispatch_plan;
use musica::jobs::parser_main;
use musica::jobs::parser_plan;
use musica::parser::parse_content;
use musica::storage::IMessageModel;
use musica::storage::INonMessageModel;
use musica::storage::InsertModel;
use musica::storage::StoreRegistry;

fn segments_for(registry: &mut StoreRegistry, name: &String) -> Vec<InsertModel> {
    let idx = registry.open_or_create(name);
    registry.store_at(idx).segments().clone()
}

#[test]
fn three_line_script_yields_three_segments_in_order() {
    let mut registry = StoreRegistry::new();
    let name = String::from("script.sc");
    let text = ";Hello comment\n#include other.sc\n1 Alice [happy] \"Hi there\"";
    parse_content(&mut registry, &name, text).unwrap();
    let segments = segments_for(&mut registry, &name);
    assert_eq!(
        segments,
        vec![
            InsertModel::INonMessage(INonMessageModel {
                line: 0,
                content: String::from(";Hello comment"),
            }),
            InsertModel::INonMessage(INonMessageModel {
                line: 1,
                content: String::from("#include other.sc"),
            }),
            InsertModel::IMessage(IMessageModel {
                line: 2,
                id: 1,
                name: String::from("Alice"),
                tachie: String::from("happy"),
                content: String::from("Hi there"),
            }),
        ]
    );
}

#[test]
fn missing_id_fails_parse_job_and_enqueues_nothing() {
    let mut registry = StoreRegistry::new();
    let mut dispatch: JobQueue<DispatchJob> = JobQueue::new();
    let job = ParserJob {
        file_path: String::from("assets/sc/one.sc"),
        file_name: String::from("one.sc"),
    };
    let r = parser_main(
        &mut registry,
        &mut dispatch,
        &job,
        "Alice [happy] \"Hi there\"",
    );
    assert_eq!(r.unwrap_err(), Error::BuildError(Field::Id));
    assert_eq!(dispatch.len(), 0);
}

#[test]
fn segments_persisted_before_a_failure_stay_persisted() {
    let mut registry = StoreRegistry::new();
    let name = String::from("partial.sc");
    let r = parse_content(&mut registry, &name, ";kept\nAlice \"no id\"");
    assert_eq!(r.unwrap_err(), Error::BuildError(Field::Id));
    let segments = segments_for(&mut registry, &name);
    assert_eq!(
        segments,
        vec![InsertModel::INonMessage(INonMessageModel {
            line: 0,
            content: String::from(";kept"),
        })]
    );
}

#[test]
fn successful_parse_job_enqueues_exactly_one_dispatch_job() {
    let mut registry = StoreRegistry::new();
    let mut dispatch: JobQueue<DispatchJob> = JobQueue::new();
    let job = ParserJob {
        file_path: String::from("assets/sc/two.sc"),
        file_name: String::from("two.sc"),
    };
    parser_main(&mut registry, &mut dispatch, &job, ";only a comment").unwrap();
    assert_eq!(dispatch.len(), 1);
    let dj = dispatch.pop().unwrap();
    assert_eq!(dj.file_path, String::from("assets/sc/two.sc"));
    assert_eq!(dj.file_name, String::from("two.sc"));
    assert_eq!(dispatch.len(), 0);
}

#[test]
fn dispatch_job_fans_out_one_analyze_and_one_translate_job() {
    let mut analyzer = JobQueue::new();
    let mut translator = JobQueue::new();
    let job = DispatchJob {
        file_path: String::from("assets/sc/two.sc"),
        file_name: String::from("two.sc"),
    };
    dispatch_main(&mut analyzer, &mut translator, &job).unwrap();
    assert_eq!(analyzer.len(), 1);
    assert_eq!(translator.len(), 1);
    let aj = analyzer.pop().unwrap();
    assert_eq!(aj.file_name, String::from("two.sc"));
    let tj = translator.pop().unwrap();
    assert_eq!(tj.file_path, String::from("assets/sc/two.sc"));
}

#[test]
fn rejected_text_reports_parse_error_and_enqueues_nothing() {
    let mut registry = StoreRegistry::new();
    let mut dispatch: JobQueue<DispatchJob> = JobQueue::new();
    let job = ParserJob {
        file_path: String::from("assets/sc/bad.sc"),
        file_name: String::from("bad.sc"),
    };
    let r = parser_main(&mut registry, &mut dispatch, &job, "bad\u{0001}byte");
    assert_eq!(r.unwrap_err(), Error::ParseError);
    assert_eq!(dispatch.len(), 0);
    assert_eq!(segments_for(&mut registry, &job.file_name), Vec::new());
}

#[test]
fn out_of_range_id_is_rejected_by_the_grammar_with_nothing_persisted() {
    let mut registry = StoreRegistry::new();
    let name = String::from("overflow.sc");
    let r = parse_content(&mut registry, &name, ";a\n2147483648");
    assert_eq!(r.unwrap_err(), Error::ParseError);
    assert_eq!(segments_for(&mut registry, &name), Vec::new());
    let r = parse_content(&mut registry, &name, "2147483648 \"x\"");
    assert_eq!(r.unwrap_err(), Error::ParseError);
    assert_eq!(segments_for(&mut registry, &name), Vec::new());
    parse_content(&mut registry, &name, "2147483647 \"x\"").unwrap();
    assert_eq!(segments_for(&mut registry, &name).len(), 1);
}

#[test]
fn one_store_per_file_name_accumulates_across_jobs() {
    let mut registry = StoreRegistry::new();
    let name = String::from("same.sc");
    parse_content(&mut registry, &name, ";first").unwrap();
    parse_content(&mut registry, &name, ";second").unwrap();
    let other = String::from("other.sc");
    parse_content(&mut registry, &other, ";elsewhere").unwrap();
    assert_eq!(registry.store_count(), 2);
    let segments = segments_for(&mut registry, &name);
    assert_eq!(segments.len(), 2);
    assert_eq!(
        segments[1],
        InsertModel::INonMessage(INonMessageModel {
            line: 0,
            content: String::from(";second"),
        })
    );
    assert_eq!(segments_for(&mut registry, &other).len(), 1);
}

#[test]
fn queue_is_first_in_first_out() {
    let mut q: JobQueue<ParserJob> = JobQueue::new();
    assert_eq!(q.pop(), None);
    q.push(ParserJob {
        file_path: String::from("a"),
        file_name: String::from("a.sc"),
    })
    .unwrap();
    q.push(ParserJob {
        file_path: String::from("b"),
        file_name: String::from("b.sc"),
    })
    .unwrap();
    assert_eq!(q.len(), 2);
    assert_eq!(q.pop().unwrap().file_name, String::from("a.sc"));
    assert_eq!(q.pop().unwrap().file_name, String::from("b.sc"));
    assert_eq!(q.pop(), None);
}

#[test]
fn worker_pool_never_exceeds_its_concurrency() {
    let mut pool = WorkerPool::new(PARSER_CONCURRENCY);
    assert_eq!(pool.concurrency(), 4);
    for _ in 0..4 {
        assert!(pool.try_acquire());
    }
    assert_eq!(pool.active_jobs(), 4);
    assert!(!pool.try_acquire());
    assert_eq!(pool.active_jobs(), 4);
    pool.release();
    assert!(pool.try_acquire());
    assert_eq!(pool.active_jobs(), 4);
}

#[test]
fn dispatch_pool_uses_its_own_concurrency() {
    let mut pool = WorkerPool::new(DISPATCH_CONCURRENCY);
    assert!(pool.try_acquire());
    assert!(pool.try_acquire());
    assert!(!pool.try_acquire());
    assert_eq!(pool.active_jobs(), 2);
}

#[test]
fn stage_plans_keep_the_file_identity() {
    let pj = ParserJob {
        file_path: String::from("p"),
        file_name: String::from("n.sc"),
    };
    let dj = parser_plan(&pj);
    assert_eq!(dj.file_path, String::from("p"));
    assert_eq!(dj.file_name, String::from("n.sc"));
    let (aj, tj) = dispatch_plan(&dj);
    assert_eq!(aj.file_name, String::from("n.sc"));
    assert_eq!(tj.file_name, String::from("n.sc"));
}

#[test]
fn job_kinds_carry_their_queue_names() {
    assert_eq!(ParserJob::job_name(), "musica-parser-job");
    assert_eq!(DispatchJob::job_name(), "musica-dispatch-job");
    assert_eq!(musica::jobs::AnalyzerJob::job_name(), "musica-analyzer-job");
    assert_eq!(musica::jobs::TranslatorJob::job_name(), "musica-translator-job");
    assert_eq!(musica::jobs::AssemblerJob::job_name(), "musica-assembler-job");
}
