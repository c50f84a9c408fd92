use lichen_lang::test::utils::CombinationIter;

#[derive(Debug)]
struct ListBlockBranchEx<T>
where
    T: TokenEx,
{
    code_list: Vec<T>,
}

trait TokenEx {}

#[derive(Debug)]
enum ExprKind {
    A,
    B,
    C,
}

#[derive(Debug)]
enum TypeKind {
    A,
    B,
    C,
}

impl TokenEx for ExprKind {}

impl TokenEx for TypeKind {}

impl<T> ListBlockBranchEx<T>
where
    T: TokenEx,
{
    fn new(code_list: Vec<T>) -> Self {
        Self { code_list }
    }
}

fn function01<T>(lbb: &ListBlockBranchEx<T>) -> &T
where
    T: TokenEx,
{
    &lbb.code_list[0]
}

#[test]
fn labo_test00() {
    let a = ListBlockBranchEx::new(vec![ExprKind::A, ExprKind::B, ExprKind::C]);
    let b = ListBlockBranchEx::new(vec![TypeKind::A, TypeKind::B, TypeKind::C]);
    println!("{:?}", a);
    println!("{:?}", b);
    assert_eq!(a.code_list.len(), 3);
    assert_eq!(b.code_list.len(), 3);
}

#[test]
fn labo_test01() {
    let a = ListBlockBranchEx::new(vec![ExprKind::A, ExprKind::B, ExprKind::C]);
    let b = function01(&a);
    println!("{:?}", b);
    println!("{:?}", a);
    assert!(matches!(b, ExprKind::A));
}

#[test]
fn combination_iter_walks_the_elements_in_order() {
    let words = vec!["hello", "world", "Tom"];
    let mut it = CombinationIter::new(&words, 2);
    assert_eq!(it.next(), Some(&"hello"));
    assert_eq!(it.next(), Some(&"world"));
    assert_eq!(it.next(), Some(&"Tom"));
    assert_eq!(it.next(), None);
    assert_eq!(it.next(), None);
}
