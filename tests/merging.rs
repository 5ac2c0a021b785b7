use paper_updater::model::{ArxivHit, DblpHit, Paper, Publication};
use paper_updater::reconcile::{
    clean_arxiv_url, first_dblp_match, update_paper_from_arxiv, update_paper_from_dblp, ChangeReport,
    PublicationChange,
};
use paper_updater::stats::UpdateStats;

fn paper(title: &str, authors: Option<&str>, publications: Vec<Publication>) -> Paper {
    Paper {
        title: title.to_string(),
        authors: authors.map(|a| a.to_string()),
        labels: vec!["nlp".to_string()],
        publications,
    }
}

fn publication(name: &str) -> Publication {
    Publication { name: name.to_string(), url: None, year: None, month: None, day: None, dblp_key: None, bibtex: None }
}

fn arxiv_hit(title: &str, id: &str) -> ArxivHit {
    ArxivHit {
        title: title.to_string(),
        authors: vec!["Ashish Vaswani".to_string(), "Noam Shazeer".to_string()],
        published: Some("2017-06-12T17:57:34Z".to_string()),
        id: Some(id.to_string()),
    }
}

fn dblp_hit(title: &str, venue: &str) -> DblpHit {
    DblpHit {
        title: title.to_string(),
        authors: vec!["Ashish Vaswani".to_string()],
        venue: venue.to_string(),
        year: Some("2017".to_string()),
        key: Some("conf/nips/VaswaniSPUJGKP17".to_string()),
        url: Some("https://proceedings.neurips.cc/x".to_string()),
    }
}

#[test]
fn arxiv_hit_adds_new_publication() {
    let mut p = paper("Attention Is All You Need", None, vec![]);
    let mut stats = UpdateStats::new();
    let hits = vec![arxiv_hit("Attention is all you need", "http://arxiv.org/abs/1706.03762v5")];
    let r = update_paper_from_arxiv(&mut p, &hits, 70, &mut stats);
    assert_eq!(r, ChangeReport { authors_updated: true, publication: PublicationChange::Added });
    assert_eq!(p.publications.len(), 1);
    let a = &p.publications[0];
    assert_eq!(a.name, "arXiv");
    assert_eq!(a.year, Some(2017));
    assert_eq!(a.month, Some(6));
    assert_eq!(a.day, Some(12));
    assert_eq!(a.url.as_deref(), Some("https://arxiv.org/abs/1706.03762"));
    assert_eq!(p.authors.as_deref(), Some("Vaswani, Shazeer"));
    assert_eq!(stats.arxiv_updates, 1);
    assert_eq!(stats.new_publications, 1);
}

#[test]
fn arxiv_hit_replaces_existing_preprint() {
    let mut old = publication("arXiv");
    old.url = Some("https://arxiv.org/abs/1706.03762v3".to_string());
    old.year = Some(2016);
    old.bibtex = Some("@x".to_string());
    let mut p = paper("Attention Is All You Need", Some("Vaswani"), vec![old]);
    let mut stats = UpdateStats::new();
    let hits = vec![arxiv_hit("Attention Is All You Need", "http://arxiv.org/abs/1706.03762v5")];
    let r = update_paper_from_arxiv(&mut p, &hits, 70, &mut stats);
    assert_eq!(r, ChangeReport { authors_updated: false, publication: PublicationChange::Updated });
    assert_eq!(p.publications.len(), 1);
    assert_eq!(p.publications[0].url.as_deref(), Some("https://arxiv.org/abs/1706.03762"));
    assert_eq!(p.publications[0].year, Some(2017));
    assert_eq!(p.publications[0].bibtex, None);
    assert_eq!(p.authors.as_deref(), Some("Vaswani"));
    assert_eq!(stats.arxiv_updates, 1);
    assert_eq!(stats.new_publications, 0);
}

#[test]
fn arxiv_same_url_reports_no_publication_change() {
    let mut old = publication("arXiv");
    old.url = Some("https://arxiv.org/abs/1706.03762".to_string());
    let mut p = paper("Attention Is All You Need", Some("Vaswani"), vec![old]);
    let mut stats = UpdateStats::new();
    let hits = vec![arxiv_hit("Attention Is All You Need", "http://arxiv.org/abs/1706.03762v7")];
    let r = update_paper_from_arxiv(&mut p, &hits, 70, &mut stats);
    assert_eq!(r, ChangeReport { authors_updated: false, publication: PublicationChange::Unchanged });
    assert_eq!(p.publications[0].month, Some(6));
    assert_eq!(stats.arxiv_updates, 0);
}

#[test]
fn arxiv_first_matching_hit_wins_and_mismatch_changes_nothing() {
    let mut p = paper("Attention Is All You Need", None, vec![]);
    let before = p.clone();
    let mut stats = UpdateStats::new();
    let hits = vec![arxiv_hit("Something else entirely", "http://arxiv.org/abs/1v1")];
    let r = update_paper_from_arxiv(&mut p, &hits, 70, &mut stats);
    assert_eq!(r, ChangeReport { authors_updated: false, publication: PublicationChange::Unchanged });
    assert_eq!(p, before);
    let hits = vec![
        arxiv_hit("Unrelated words", "http://arxiv.org/abs/1v1"),
        arxiv_hit("Attention is all you need", "http://arxiv.org/abs/2v2"),
        arxiv_hit("Attention is all you need", "http://arxiv.org/abs/3v3"),
    ];
    update_paper_from_arxiv(&mut p, &hits, 70, &mut stats);
    assert_eq!(p.publications[0].url.as_deref(), Some("https://arxiv.org/abs/2"));
}

#[test]
fn arxiv_hit_without_date_only_sets_authors() {
    let mut p = paper("Attention Is All You Need", None, vec![]);
    let mut stats = UpdateStats::new();
    let mut hit = arxiv_hit("Attention Is All You Need", "http://arxiv.org/abs/1706.03762v5");
    hit.published = Some("not a date".to_string());
    let r = update_paper_from_arxiv(&mut p, &vec![hit], 70, &mut stats);
    assert_eq!(r, ChangeReport { authors_updated: true, publication: PublicationChange::Unchanged });
    assert!(p.publications.is_empty());
}

#[test]
fn url_cleaning_strips_version_and_secures() {
    assert_eq!(clean_arxiv_url("http://arxiv.org/abs/1706.03762v12"), "https://arxiv.org/abs/1706.03762");
    assert_eq!(clean_arxiv_url("https://arxiv.org/abs/1706.03762"), "https://arxiv.org/abs/1706.03762");
}

#[test]
fn corr_venue_is_skipped() {
    let title = "Attention Is All You Need";
    let hits = vec![dblp_hit(title, "CoRR"), dblp_hit(title, ""), dblp_hit(title, "NeurIPS")];
    assert_eq!(first_dblp_match(title, &hits, 60), Some(2));
    let only_corr = vec![dblp_hit(title, "CoRR")];
    assert_eq!(first_dblp_match(title, &only_corr, 0), None);
}

#[test]
fn dblp_fills_only_missing_bibtex() {
    let mut existing = publication("NeurIPS");
    existing.dblp_key = Some("conf/nips/X20".to_string());
    existing.url = Some("https://example.org/paper".to_string());
    let mut p = paper("Attention Is All You Need", Some("Vaswani"), vec![existing]);
    let mut stats = UpdateStats::new();
    let hit = dblp_hit("Attention Is All You Need", "NeurIPS");
    let r = update_paper_from_dblp(&mut p, &hit, Some("@inproceedings{x}".to_string()), &mut stats);
    assert_eq!(r, ChangeReport { authors_updated: false, publication: PublicationChange::Updated });
    assert_eq!(p.publications.len(), 1);
    let q = &p.publications[0];
    assert_eq!(q.bibtex.as_deref(), Some("@inproceedings{x}"));
    assert_eq!(q.dblp_key.as_deref(), Some("conf/nips/X20"));
    assert_eq!(q.url.as_deref(), Some("https://example.org/paper"));
    assert_eq!(stats.dblp_updates, 1);
}

#[test]
fn dblp_venue_lookup_ignores_case() {
    let mut p = paper("T", Some("A"), vec![publication("neurips")]);
    let mut stats = UpdateStats::new();
    let r = update_paper_from_dblp(&mut p, &dblp_hit("T", "NeurIPS"), None, &mut stats);
    assert_eq!(r.publication, PublicationChange::Updated);
    assert_eq!(p.publications.len(), 1);
    assert_eq!(p.publications[0].name, "neurips");
}

#[test]
fn dblp_appends_new_venue_with_parsed_year() {
    let mut p = paper("T", None, vec![publication("arXiv")]);
    let mut stats = UpdateStats::new();
    let mut hit = dblp_hit("T", "ICML");
    let r = update_paper_from_dblp(&mut p, &hit, None, &mut stats);
    assert_eq!(r, ChangeReport { authors_updated: true, publication: PublicationChange::Added });
    assert_eq!(p.publications.len(), 2);
    assert_eq!(p.publications[1].name, "ICML");
    assert_eq!(p.publications[1].year, Some(2017));
    assert_eq!(p.authors.as_deref(), Some("Vaswani"));
    assert_eq!(stats.new_publications, 1);
    hit.venue = "ICLR".to_string();
    hit.year = Some("MMXVII".to_string());
    update_paper_from_dblp(&mut p, &hit, None, &mut stats);
    assert_eq!(p.publications[2].year, None);
}

#[test]
fn set_authors_are_never_overwritten() {
    let mut p = paper("Attention Is All You Need", Some(""), vec![]);
    let mut stats = UpdateStats::new();
    update_paper_from_arxiv(&mut p, &vec![arxiv_hit("Attention Is All You Need", "http://a/1v1")], 70, &mut stats);
    update_paper_from_dblp(&mut p, &dblp_hit("Attention Is All You Need", "NeurIPS"), None, &mut stats);
    assert_eq!(p.authors.as_deref(), Some(""));
}

#[test]
fn repeated_merges_keep_one_publication_per_venue() {
    let mut p = paper("Attention Is All You Need", None, vec![publication("ARXIV")]);
    let mut stats = UpdateStats::new();
    for venue in ["NeurIPS", "neurips", "NEURIPS"] {
        update_paper_from_dblp(&mut p, &dblp_hit("Attention Is All You Need", venue), None, &mut stats);
        update_paper_from_arxiv(&mut p, &vec![arxiv_hit("Attention Is All You Need", "http://a/1v1")], 70, &mut stats);
    }
    assert_eq!(p.publications.len(), 2);
    let mut keys: Vec<String> = p.publications.iter().map(|q| q.name.to_lowercase()).collect();
    keys.sort();
    keys.dedup();
    assert_eq!(keys.len(), 2);
}

#[test]
fn stats_start_at_zero_and_count() {
    let mut s = UpdateStats::new();
    assert_eq!(
        s,
        UpdateStats { papers_processed: 0, arxiv_updates: 0, dblp_updates: 0, errors: 0, new_publications: 0 }
    );
    s.record_paper();
    s.record_error();
    s.record_error();
    assert_eq!(s.papers_processed, 1);
    assert_eq!(s.errors, 2);
}

#[test]
fn dblp_year_text_follows_integer_grammar() {
    let cases = [("+2017", Some(2017)), ("-12", Some(-12)), ("2017 ", None), ("", None), ("99999999999", None)];
    for (text, expected) in cases {
        let mut p = paper("T", Some("A"), vec![]);
        let mut stats = UpdateStats::new();
        let mut hit = dblp_hit("T", "ICML");
        hit.year = Some(text.to_string());
        update_paper_from_dblp(&mut p, &hit, None, &mut stats);
        assert_eq!(p.publications[0].year, expected);
    }
}
