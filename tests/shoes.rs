use buffer_pool::{shoes_in_my_size, Shoe};

#[test]
fn test_filter_struct() {
    let shoes = vec![
        Shoe::new(22, String::from("スニーカー")),
        Shoe::new(23, String::from("サンダル")),
        Shoe::new(24, String::from("ブーツ")),
        Shoe::new(33, String::from("革靴")),
    ];
    let my_shoes = shoes_in_my_size(shoes, 24);
    println!("{:?}", my_shoes);
}

#[test]
fn shoes_of_one_size_keep_their_order() {
    let shoes = vec![
        Shoe::new(24, String::from("a")),
        Shoe::new(23, String::from("b")),
        Shoe::new(24, String::from("c")),
    ];
    let mine = shoes_in_my_size(shoes, 24);
    assert_eq!(mine.len(), 2);
    assert_eq!(mine[0].style, "a");
    assert_eq!(mine[1].style, "c");
    assert!(shoes_in_my_size(Vec::new(), 24).is_empty());
    assert!(shoes_in_my_size(vec![Shoe::new(1, String::from("x"))], 24).is_empty());
}
