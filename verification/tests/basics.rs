use exercises::clippy::is_some;
use exercises::enums::{double_or_zero, Message, Operation};
use exercises::functions::{count_to_ten, fizz, square};
use exercises::hello::{hello_outcome, HelloOutcome};
use exercises::if_::number_type;
use exercises::intro::message;
use exercises::my_module;
use exercises::parent_module::child::answer;
use exercises::sibling_b;
use exercises::structs::Rectangle;
use exercises::vecs::double_all;

#[test]
fn test_greeting() {
    let args = vec!["hello-rust".to_string(), "Rust".to_string()];
    assert_eq!(args.len(), 2);
    assert_eq!(&args[1], "Rust");
    match hello_outcome(&args) {
        HelloOutcome::Greeting(g) => assert_eq!(g, "Hello, Rust!"),
        HelloOutcome::Usage(_) => panic!("expected a greeting"),
    }
}

#[test]
fn hello_without_name_gives_usage() {
    let args = vec!["hello-rust".to_string()];
    match hello_outcome(&args) {
        HelloOutcome::Usage(u) => assert_eq!(u, "用法: hello-rust <name>"),
        HelloOutcome::Greeting(_) => panic!("expected the usage line"),
    }
}

#[test]
fn clippy_clippy1() {
    assert!(is_some(Some(42)));
    assert!(!is_some(None));
}

#[test]
fn clippy_clippy2() {
    let s = String::from("hello");

    assert_eq!(s, "hello");
}

#[test]
fn enums_enums1() {
    let msg = Message::Write(String::from("hello"));
    let text = msg.into_text();

    assert_eq!(text, "hello");
    assert_eq!(Message::ChangeColor(1, 2, 3).into_text(), "changed color");
    assert_eq!(Message::Quit.into_text(), "");
}

#[test]
fn enums_enums2() {
    let maybe_value: Option<i32> = Some(42);
    let result = double_or_zero(maybe_value);

    assert_eq!(result, 84);
    assert_eq!(double_or_zero(None), 0);
}

#[test]
fn enums_enums3() {
    let op = Operation::Multiply(6, 7);
    assert_eq!(op.compute(), 42);
    assert_eq!(Operation::Add(6, 7).compute(), 13);
}

#[test]
fn functions_functions3() {
    assert_eq!(fizz(7, 6), 42);
}

#[test]
fn functions_functions4() {
    assert_eq!(square(4), 16);
}

#[test]
fn functions_functions5() {
    assert_eq!(count_to_ten(10), 10);
    assert_eq!(count_to_ten(5), 5);
}

#[test]
fn count_to_ten_caps_larger_values() {
    assert_eq!(count_to_ten(11), 10);
    assert_eq!(count_to_ten(-3), -3);
}

#[test]
fn if__if1() {
    let b = true;
    let result = if b { 1 } else { 0 };
    assert_eq!(result, 1);
}

#[test]
fn if__if2() {
    let condition = true;
    let number = if condition { 5 } else { 5 };
    assert_eq!(number, 5);
}

#[test]
fn if__if3() {
    assert_eq!(number_type(0), "zero");
    assert_eq!(number_type(7), "positive");
    assert_eq!(number_type(-7), "negative");
}

#[test]
fn intro_intro1() {
    println!("Hello Rust!");
}

#[test]
fn intro_intro2() {
    let answer: i32 = 42;
    println!("The answer is {}", answer);
}

#[test]
fn intro_intro3() {
    assert_eq!(1 + 1, 2);
}

#[test]
fn intro_intro4() {
    assert_eq!(message(), "Hello");
}

#[test]
fn intro_intro5() {
    let x: () = ();
    let _ = x;
}

#[test]
fn modules_modules1() {
    assert_eq!(my_module::private_function(), "private");
}

#[test]
fn modules_modules2() {
    assert_eq!(answer(), 42);
}

#[test]
fn modules_modules3() {
    assert_eq!(sibling_b::call(), "hello");
}

#[test]
fn structs_structs1() {
    struct Person {
        name: String,
        age: i32,
    }

    let person = Person {
        name: String::from("Rust"),
        age: 10,
    };

    assert_eq!(person.name, "Rust");
    assert_eq!(person.age, 10);
}

#[test]
fn structs_structs2() {
    struct Rgb {
        r: u8,
        g: u8,
        b: u8,
    }

    let base = Rgb { r: 0, g: 0, b: 0 };
    let red = Rgb { r: 255, ..base };

    assert_eq!(red.r, 255);
    assert_eq!(red.g, 0);
    assert_eq!(red.b, 0);
}

#[test]
fn structs_structs3() {
    let rect = Rectangle { width: 3, height: 4 };
    assert_eq!(rect.area(), 12);
}

#[test]
fn tests_tests1() {
    let result = 2 + 2;
    assert_eq!(result, 4);
}

#[test]
fn tests_tests2() {
    let message = "hello";
    assert!(!message.is_empty());
}

#[test]
fn vecs_vecs1() {
    let v = vec![1, 2, 3];
    assert_eq!(v, vec![1, 2, 3]);
}

#[test]
fn vecs_vecs2() {
    let mut v = vec![1, 2, 3];
    double_all(&mut v);
    assert_eq!(v, vec![2, 4, 6]);
}
