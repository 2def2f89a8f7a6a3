use exercises::conversions::{PositiveError, PositiveU32};
use exercises::generics::{generics1_solution, generics2_solution, larger, Wrapper};
use exercises::iterators::{
    collect_results, evens_up_to, first_greater_than, squares_up_to, total_len,
};
use exercises::lifetimes::{
    first_sentence, lifetimes1_solution, lifetimes2_solution, lifetimes3_solution, longer, select,
    Excerpt,
};
use exercises::options::{describe_multiples_of_three, number_to_string, parse_or_zero};
use exercises::traits::{say_hello, Greet, NewsArticle, Summary, Tweet};
use std::cell::Cell;
use std::collections::HashMap;
use std::rc::Rc;

#[test]
fn conversions_conversions1() {
    fn print_length<S: AsRef<str>>(s: S) {
        println!("{}", s.as_ref().len());
    }

    let owned = String::from("Rust");
    let borrowed: &str = "Rust";

    print_length(&owned);
    print_length(borrowed);

    assert_eq!(<String as AsRef<str>>::as_ref(&owned), "Rust");
}

#[test]
fn conversions_conversions2() {
    struct Person {
        name: String,
    }

    impl From<&str> for Person {
        fn from(name: &str) -> Self {
            Person {
                name: name.to_string(),
            }
        }
    }

    impl From<String> for Person {
        fn from(name: String) -> Self {
            Person { name }
        }
    }

    let p1: Person = "Alice".into();
    let p2: Person = String::from("Bob").into();

    assert_eq!(p1.name, "Alice");
    assert_eq!(p2.name, "Bob");
}

#[test]
fn conversions_conversions3() {
    assert_eq!(PositiveU32::try_from(42), Ok(PositiveU32(42)));
    assert_eq!(PositiveU32::try_from(-1), Err(PositiveError::Negative));
    assert_eq!(PositiveU32::try_from(5_000_000_000_i64), Err(PositiveError::TooLarge));
    assert_eq!(PositiveError::Negative.message(), "value is negative");
    assert_eq!(PositiveError::TooLarge.message(), "value does not fit in u32");
}

#[test]
fn positive_conversion_edges() {
    assert_eq!(PositiveU32::try_from(0), Ok(PositiveU32(0)));
    assert_eq!(PositiveU32::try_from(4294967295), Ok(PositiveU32(4294967295)));
    assert_eq!(PositiveU32::try_from(4294967296), Err(PositiveError::TooLarge));
}

#[test]
fn generics1() {
    let w = Wrapper::new("hello");
    assert_eq!(w.value(), &"hello");

    let w = Wrapper::new(42);
    assert_eq!(w.value(), &42);

    generics1_solution();
}

#[test]
fn generics2() {
    assert_eq!(larger(3, 5), 5);
    assert_eq!(larger(3.14_f64, 2.71_f64), 3.14_f64);
    assert_eq!(larger('a', 'z'), 'z');

    generics2_solution();
}

#[test]
fn lifetimes_longer_and_select() {
    let s1 = String::from("hello");
    let s2 = String::from("world!");
    assert_eq!(longer(&s1, &s2), "world!");
    assert_eq!(longer("abc", "xyz"), "xyz");

    let s1 = String::from("first");
    let s2 = String::from("second");
    assert_eq!(select(&s1, &s2, true), "first");
    assert_eq!(select(&s1, &s2, false), "second");

    lifetimes1_solution();
    lifetimes3_solution();
}

#[test]
fn lifetimes_first_sentence() {
    let novel = String::from("Call me Ishmael. Some years ago...");
    let excerpt = Excerpt {
        part: first_sentence(&novel),
    };
    assert!(!excerpt.part.is_empty());
    assert_eq!(excerpt.part, "Call me Ishmael");
    assert_eq!(first_sentence("no dot here"), "no dot here");
    assert_eq!(first_sentence(".starts"), "");

    lifetimes2_solution();
}

#[test]
fn hashmaps_hashmaps1() {
    let mut fruit_calories: HashMap<String, u32> = HashMap::new();
    fruit_calories.insert(String::from("apple"), 52);
    fruit_calories.insert(String::from("banana"), 89);
    fruit_calories.insert(String::from("grape"), 69);

    assert_eq!(fruit_calories["apple"], 52);
    assert_eq!(fruit_calories["banana"], 89);
    assert_eq!(fruit_calories["grape"], 69);
}

#[test]
fn hashmaps_hashmaps2() {
    let text = "Rust is fast and Rust is safe and Rust is fun";
    let mut counts: HashMap<String, u32> = HashMap::new();

    for word in text.split_whitespace() {
        *counts.entry(word.to_lowercase()).or_insert(0) += 1;
    }

    assert_eq!(counts["rust"], 3);
    assert_eq!(counts["is"], 3);
    assert_eq!(counts["and"], 2);
    assert_eq!(counts["fast"], 1);
}

#[test]
fn hashmaps_hashmaps3() {
    let mut scores = HashMap::from([("blue".to_string(), 10), ("yellow".to_string(), 50)]);

    let blue_score = scores.entry(String::from("blue")).or_insert(0);
    assert_eq!(*blue_score, 10);

    let red_score = scores.entry(String::from("red")).or_insert(0);
    *red_score += 20;
    assert_eq!(scores["red"], 20);

    assert_eq!(scores["blue"], 10);
    assert_eq!(scores.len(), 3);
}

#[test]
fn iterators_iterators1() {
    let squares: Vec<i32> = squares_up_to(4);
    assert_eq!(squares, vec![1, 4, 9, 16]);
}

#[test]
fn iterators_iterators2() {
    let evens: Vec<i32> = evens_up_to(6);
    assert_eq!(evens, vec![2, 4, 6]);
}

#[test]
fn iterators_iterators3() {
    let nums = vec![3, 7, 12, 9, 15];
    let first_big: Option<i32> = first_greater_than(&nums, 10);
    assert_eq!(first_big, Some(12));
}

#[test]
fn iterators_iterators4() {
    let words = ["hello", " ", "world", "rust", "!!"];
    let total_len: usize = total_len(&words);
    assert_eq!(total_len, 17);
}

#[test]
fn iterators_iterators5() {
    let results: Vec<Result<i32, &str>> = vec![Ok(1), Ok(3), Ok(4)];
    let collected: Result<Vec<i32>, &str> = collect_results(&results);
    assert_eq!(collected, Ok(vec![1, 3, 4]));
}

#[test]
fn iterator_edge_cases() {
    assert_eq!(squares_up_to(0), Vec::<i32>::new());
    assert_eq!(evens_up_to(7), vec![2, 4, 6]);
    assert_eq!(evens_up_to(-3), Vec::<i32>::new());
    assert_eq!(first_greater_than(&vec![1, 2, 3], 10), None);
    let results: Vec<Result<i32, &str>> = vec![Ok(1), Err("skip"), Err("later")];
    assert_eq!(collect_results(&results), Err("skip"));
    assert_eq!(total_len(&["语言"]), 6);
}

#[test]
fn options_options1() {
    let maybe_number: Option<u32> = Some(42);

    let maybe_string: Option<String> = number_to_string(maybe_number);

    assert_eq!(maybe_string, Some("42".to_string()));

    let nothing: Option<u32> = None;
    let nothing_string: Option<String> = number_to_string(nothing);
    assert_eq!(nothing_string, None);
}

#[test]
fn options_options2() {
    let input = "123";
    let bad_input = "not a number";

    assert_eq!(parse_or_zero(input), 123);
    assert_eq!(parse_or_zero(bad_input), 0);
}

#[test]
fn options_options3() {
    let numbers: Vec<Option<u32>> = vec![Some(1), Some(3), Some(5), Some(9), Some(12), None];

    let descriptions: Vec<String> = describe_multiples_of_three(&numbers);

    assert_eq!(descriptions, vec!["divisible by 3: 3", "divisible by 3: 9", "divisible by 3: 12"]);
}

#[test]
fn traits_traits1() {
    assert_eq!(42.greet(), "I am number 42".to_string());
}

#[test]
fn traits_traits2() {
    #[derive(Debug, PartialEq, Clone)]
    struct Point {
        x: i32,
        y: i32,
    }

    let p1 = Point { x: 1, y: 2 };
    let p2 = p1.clone();
    assert_eq!(p1, p2);
    assert_eq!(format!("{:?}", p1), "Point { x: 1, y: 2 }");
}

#[test]
fn traits_traits3() {
    let tweet = Tweet {
        username: "rustacean".to_string(),
        content: "learning traits".to_string(),
    };
    assert_eq!(tweet.summarize(), "@rustacean: learning traits");

    let article = NewsArticle {
        headline: "Rust 1.85 released".to_string(),
    };
    assert_eq!(article.summarize(), "NEWS: Rust 1.85 released");
}

#[test]
fn traits_traits4() {
    assert_eq!(say_hello(String::from("world")), "Hello, world!");
}

#[test]
fn traits_traits5() {
    struct DroppingCounter {
        _id: usize,
        dropped: Rc<Cell<usize>>,
    }

    impl Drop for DroppingCounter {
        fn drop(&mut self) {
            self.dropped.set(self.dropped.get() + 1);
        }
    }

    let dropped_count = Rc::new(Cell::new(0));
    {
        let _a = DroppingCounter { _id: 1, dropped: dropped_count.clone() };
        let _b = DroppingCounter { _id: 2, dropped: dropped_count.clone() };
        let _c = DroppingCounter { _id: 3, dropped: dropped_count.clone() };
    }

    assert_eq!(dropped_count.get(), 3);
}
