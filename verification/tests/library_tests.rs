use mlapibot::analysis::{as_ref, Analyzer, AnalyzerKind, Context, Detection, StrAnalzyer};
use mlapibot::detected::DetectedItem;
use mlapibot::error::ResultWarningsGeneric;
use mlapibot::links::{extract_image_links, parse_url, valid_extensions};
use mlapibot::matchers::kind::MatcherKind;
use mlapibot::matchers::phrase::PhraseMatcher;
use mlapibot::ratelimiter::{Rate, Ratelimiter, REDDIT_SECONDS, STATUS_SECONDS};
use mlapibot::similarity::SCALE;
use mlapibot::url::Url;
use mlapibot::utils::{clamp, LowercaseString};
use mlapibot::webhook::{Message, MessageEmbed, MessageEmbedAuthor};

#[test]
pub fn empty_detection_is_discarded() {
    let detection = Detection::new();
    assert_eq!(detection.best_score(), 0);
    assert!(detection.finish().is_none());
}

#[test]
pub fn nonempty_detection_is_kept() {
    let mut detection = Detection::new();
    detection.set_title(DetectedItem::new(SCALE));
    let kept = detection.finish().unwrap();
    assert_eq!(kept.best_score(), SCALE);
}

#[test]
pub fn best_score_is_the_maximum() {
    let mut detection = Detection::new();
    detection.add_image(0, DetectedItem::new(300_000));
    detection.add_image(1, DetectedItem::new(900_000));
    detection.set_body(DetectedItem::new(850_000));
    assert_eq!(detection.best_score(), 900_000);
}

#[test]
pub fn analyzer_blacklist_discards_detection() {
    let ctx = Context {
        images: Vec::new(),
        title: Some(String::from("hello world")),
        body: None,
        debug: false,
    };
    let plain = Analyzer {
        name: String::from("greeting"),
        report: false,
        ignore_self_posts: true,
        template: String::from("default"),
        blacklist: None,
        kind: AnalyzerKind::Text(StrAnalzyer {
            ocr: None,
            title: Some(MatcherKind::Phrase(PhraseMatcher::new("hello world"))),
            body: None,
        }),
    };
    assert!(plain.analyze(&ctx).is_some());

    let blacklisted = Analyzer {
        blacklist: Some(MatcherKind::Phrase(PhraseMatcher::new("world"))),
        ..plain
    };
    assert!(blacklisted.analyze(&ctx).is_none());
}

#[test]
pub fn ratelimiter_round() {
    let mut rl = Ratelimiter::new(1_000);
    assert_eq!(rl.get(1_000), Rate::StatusReady);
    rl.set_status(1_000);
    assert_eq!(rl.get(1_005), Rate::SubredditsReady);
    rl.set_subreddits(1_005);
    assert_eq!(rl.get(1_010), Rate::InboxReady);
    rl.set_inbox(1_010);
    // everything was just polled: wait until the nearest deadline
    assert_eq!(rl.get(1_010), Rate::NoneReadyFor(10));
    // after its interval the subreddit source is ready again
    assert_eq!(rl.get(1_005 + REDDIT_SECONDS), Rate::SubredditsReady);
    // the status source has the longest interval
    assert_eq!(rl.get(1_000 + STATUS_SECONDS), Rate::StatusReady);
}

#[test]
pub fn clamp_truncates() {
    assert_eq!(clamp("hello", 10), "hello");
    assert_eq!(clamp("hello", 3), "hel");
}

#[test]
pub fn lowercase_string_folds() {
    let s = LowercaseString::new("Hello WORLD 10MB!");
    assert_eq!(s.as_str(), "hello world 10mb!");
}

#[test]
pub fn result_warnings_shape() {
    let ok: ResultWarningsGeneric<u32, String, String> =
        ResultWarningsGeneric::ok(7, Vec::new());
    assert!(matches!(ok, ResultWarningsGeneric::Done(7)));
    let warned: ResultWarningsGeneric<u32, String, String> =
        ResultWarningsGeneric::ok(7, vec![String::from("careful")]);
    assert!(matches!(warned, ResultWarningsGeneric::DoneWarn(7, _)));
}

#[test]
pub fn extracts_and_normalizes_image_links() {
    let text = "see https://preview.redd.it/abc.png and https://example.com/page.html \
                plus http://insecure.example.com/x.png here";
    let links = extract_image_links(text);
    assert_eq!(links.len(), 1);
    assert_eq!(links[0].as_str(), "https://i.redd.it/abc.png");
}

#[test]
pub fn gyazo_links_gain_an_extension() {
    let url = Url::parse("https://gyazo.com/abcdef").unwrap();
    let fixed = parse_url(url.as_str()).unwrap();
    assert_eq!(fixed.as_str(), "https://i.gyazo.com/abcdef.png");
}

#[test]
pub fn extensions_list() {
    assert_eq!(valid_extensions(), vec![".png", ".jpeg", ".jpg"]);
}

#[test]
pub fn message_builders() {
    let author = MessageEmbedAuthor::new("someone");
    let embed = MessageEmbed::builder()
        .title("a title")
        .description("a description")
        .url("https://example.com")
        .author(author);
    let message = Message::builder().content("content").embed(embed);
    assert_eq!(message.content.as_deref(), Some("content"));
    assert_eq!(message.embeds.len(), 1);
    assert_eq!(message.embeds[0].title.as_deref(), Some("a title"));
    assert_eq!(
        message.embeds[0].author.as_ref().unwrap().name,
        "someone"
    );
}

#[test]
pub fn context_images_are_matched() {
    let ctx = Context {
        images: vec![
            vec![String::from("nothing"), String::from("here")],
            vec![
                String::from("free"),
                String::from("money"),
                String::from("inside"),
            ],
        ],
        title: None,
        body: None,
        debug: false,
    };
    let analyzer = StrAnalzyer {
        ocr: Some(MatcherKind::Phrase(PhraseMatcher::new("free money"))),
        title: None,
        body: None,
    };
    let detection = analyzer.analyze(&ctx).unwrap();
    let words = as_ref(&ctx.images[1]);
    let rendered = detection.get_markdown(&ctx);
    assert_eq!(rendered, vec!["**free** **money** inside"]);
    assert_eq!(words.len(), 3);
}
