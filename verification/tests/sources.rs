//! Source loading: category filenames, category selection, and the
//! parsing of a source-list text.

use baker::sources::{read_sources, selected_category, Category, Selection};

fn selection(
    ads: bool,
    trackers: bool,
    malware: bool,
    phishing: bool,
    smart_tv: bool,
    nsfw: bool,
) -> Selection {
    Selection { ads, trackers, malware, phishing, smart_tv, nsfw }
}

#[test]
fn category_filenames() {
    assert_eq!(Category::Ads.filename(), "ads.txt");
    assert_eq!(Category::Trackers.filename(), "trackers.txt");
    assert_eq!(Category::Malware.filename(), "malware.txt");
    assert_eq!(Category::Phishing.filename(), "phishing.txt");
    assert_eq!(Category::SmartTV.filename(), "smart_tv.txt");
    assert_eq!(Category::NSFW.filename(), "nsfw.txt");
}

#[test]
fn no_categories_selected() {
    let cats = selected_category(&selection(false, false, false, false, false, false));
    assert_eq!(cats.len(), 0);
}

#[test]
fn all_categories_selected_in_order() {
    let cats = selected_category(&selection(true, true, true, true, true, true));
    assert_eq!(
        cats,
        vec![
            Category::Ads,
            Category::Trackers,
            Category::Malware,
            Category::Phishing,
            Category::SmartTV,
            Category::NSFW,
        ]
    );
}

#[test]
fn some_categories_selected() {
    let cats = selected_category(&selection(false, true, false, false, false, true));
    assert_eq!(cats, vec![Category::Trackers, Category::NSFW]);
}

#[test]
fn read_sources_filters_comments_and_blanks() {
    let text = "# curated lists\n\nhttp://lists.example/a.txt\n  http://lists.example/b.txt  \n\t\n# end\n";
    let urls = read_sources(text);
    assert_eq!(
        urls,
        vec![
            String::from("http://lists.example/a.txt"),
            String::from("http://lists.example/b.txt"),
        ]
    );
}

#[test]
fn read_sources_empty_text() {
    assert_eq!(read_sources("").len(), 0);
    assert_eq!(read_sources("# only a comment\n").len(), 0);
}

#[test]
fn read_sources_without_final_newline() {
    let urls = read_sources("http://lists.example/a.txt");
    assert_eq!(urls, vec![String::from("http://lists.example/a.txt")]);
}
