use mandelbrot::params::{
    params, resolve, DEFAULT_HEIGHT, DEFAULT_LIMIT, DEFAULT_MAG, DEFAULT_WIDTH, DEFAULT_X,
    DEFAULT_Y,
};

fn params_pair(key: &str, value: &str) -> (String, String) {
    (key.to_string(), value.to_string())
}

#[test]
fn empty_fragment_gives_the_defaults() {
    let p = params("");
    assert_eq!(p.width, 800);
    assert_eq!(p.height, 600);
    assert_eq!(p.limit, 1000);
    assert_eq!(p.x, "");
    assert_eq!(p.y, "");
    assert_eq!(p.mag, "");
}

#[test]
fn lone_hash_gives_the_defaults() {
    let p = params("#");
    assert_eq!((p.width, p.height, p.limit), (800, 600, 1000));
    assert_eq!((p.x.as_str(), p.y.as_str(), p.mag.as_str()), ("", "", ""));
}

#[test]
fn no_pairs_give_the_defaults() {
    let p = resolve(&Vec::new());
    assert_eq!((p.width, p.height, p.limit), (800, 600, 1000));
    assert_eq!((p.x.as_str(), p.y.as_str(), p.mag.as_str()), ("", "", ""));
}

#[test]
fn default_constants() {
    assert_eq!(DEFAULT_WIDTH, 800);
    assert_eq!(DEFAULT_HEIGHT, 600);
    assert_eq!(DEFAULT_LIMIT, 1000);
    assert_eq!(DEFAULT_X.parse::<f64>(), Ok(-0.5));
    assert_eq!(DEFAULT_Y.parse::<f64>(), Ok(0.0));
    assert_eq!(DEFAULT_MAG.parse::<f64>(), Ok(1.5));
}

#[test]
fn every_key_given() {
    let p = params("#w=320&h=200&x=-0.75&y=0.1&mag=2&limit=50");
    assert_eq!(p.width, 320);
    assert_eq!(p.height, 200);
    assert_eq!(p.x, "-0.75");
    assert_eq!(p.y, "0.1");
    assert_eq!(p.mag, "2");
    assert_eq!(p.limit, 50);
    assert_eq!(p.x.parse::<f64>(), Ok(-0.75));
    assert_eq!(p.y.parse::<f64>(), Ok(0.1));
    assert_eq!(p.mag.parse::<f64>(), Ok(2.0));
}

#[test]
fn keys_in_any_order() {
    let p = params("#limit=7&mag=3.5&h=2&w=1");
    assert_eq!((p.width, p.height, p.limit), (1, 2, 7));
    assert_eq!(p.mag, "3.5");
    assert_eq!(p.x, "");
}

#[test]
fn malformed_integers_fall_back() {
    let p = params("#w=abc&h=12.5&limit=1e3");
    assert_eq!((p.width, p.height, p.limit), (800, 600, 1000));
    let p = params("#w=&h=+&limit=-");
    assert_eq!((p.width, p.height, p.limit), (800, 600, 1000));
    let p = params("#w=%2010&h=10+&limit=10px");
    assert_eq!((p.width, p.height, p.limit), (800, 600, 1000));
}

#[test]
fn integers_out_of_range_fall_back() {
    let p = params("#w=2147483648&h=-2147483649&limit=99999999999");
    assert_eq!((p.width, p.height, p.limit), (800, 600, 1000));
    let p = params("#w=2147483647&h=-2147483648");
    assert_eq!((p.width, p.height), (i32::MAX, i32::MIN));
}

#[test]
fn zero_and_negative_values_pass_through() {
    let p = params("#w=0&h=-3&limit=-5");
    assert_eq!((p.width, p.height, p.limit), (0, -3, -5));
}

#[test]
fn signed_values_are_read() {
    let p = params("#w=%2B12&limit=-0");
    assert_eq!((p.width, p.limit), (12, 0));
}

#[test]
fn a_plus_in_the_query_is_a_space() {
    let p = params("#w=+12");
    assert_eq!(p.width, 800);
}

#[test]
fn the_last_of_equal_keys_counts() {
    let p = params("#w=1&w=2&w=3");
    assert_eq!(p.width, 3);
    let p = params("#w=1&w=oops");
    assert_eq!(p.width, 800);
}

#[test]
fn unknown_keys_are_ignored() {
    let p = params("#width=10&W=20&zoom=3&w%20=5");
    assert_eq!((p.width, p.height, p.limit), (800, 600, 1000));
    assert_eq!(p.mag, "");
}

#[test]
fn real_texts_are_handed_on_as_written() {
    let p = params("#x=abc&y=1e-3&mag=%20");
    assert_eq!(p.x, "abc");
    assert_eq!(p.y, "1e-3");
    assert_eq!(p.mag, " ");
}

#[test]
fn several_hashes_are_dropped() {
    let p = params("##w=5");
    assert_eq!(p.width, 5);
}

#[test]
fn resolve_reads_pairs() {
    let pairs = vec![params_pair("h", "3"), params_pair("x", "0.25"), params_pair("h", "4"), params_pair("limit", "010")];
    let p = resolve(&pairs);
    assert_eq!((p.width, p.height, p.limit), (800, 4, 10));
    assert_eq!(p.x, "0.25");
    assert_eq!(p.y, "");
}

#[test]
fn params_is_resolve_of_the_pairs() {
    let hash = "#w=64&h=48&x=0&y=1&mag=4&limit=32&w=65";
    let direct = params(hash);
    let stepwise = resolve(&mandelbrot::query::pairs_of(hash));
    assert_eq!(direct.width, stepwise.width);
    assert_eq!(direct.height, stepwise.height);
    assert_eq!(direct.limit, stepwise.limit);
    assert_eq!(direct.x, stepwise.x);
    assert_eq!(direct.y, stepwise.y);
    assert_eq!(direct.mag, stepwise.mag);
    assert_eq!(direct.width, 65);
}
