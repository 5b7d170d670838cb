//! The demonstration values: each function builds what the demonstration
//! shows and hands it back, so that a caller can print or inspect it.
use std::rc::Rc;
use vstd::prelude::*;

verus! {

broadcast use vstd::string::group_string_axioms;

/// The names walked over by reference; the vector stays usable afterwards.
pub fn ownership_example1() -> (names: Vec<String>)
    ensures
        names@.len() == 3,
        names@[0]@ == "Miha"@,
        names@[1]@ == "Tilka"@,
        names@[2]@ == "Robi"@,
{
    let names = vec!["Miha".to_string(), "Tilka".to_string(), "Robi".to_string()];
    names
}

/// A pair placed on the heap behind a single owner.
pub fn ownership_example2() -> (boxed: Box<(i32, i32)>)
    ensures
        *boxed == (10i32, 20i32),
{
    let boxed_value = Box::new((10i32, 20i32));
    boxed_value
}

/// A vector filled by three pushes and never moved away.
pub fn ownership_example3() -> (v1: Vec<i32>)
    ensures
        v1@ == seq![1i32, 2i32, 3i32],
{
    let mut v1: Vec<i32> = Vec::new();
    v1.push(1);
    v1.push(2);
    v1.push(3);
    v1
}

/// Copy types stay usable after being passed by value: returns the value handed
/// to the consumer, the sum computed from it afterwards, and the pair.
pub fn ownership_example4() -> (r: (i32, i32, (i32, i32)))
    ensures
        r == (109i32, 218i32, (1i32, 2i32)),
{
    let g: (i32, i32) = (1, 2);
    let a: i32 = 109;
    let handed = a;
    let b = a + a;
    test(g);
    (handed, b, g)
}

/// Takes a pair by value and does nothing with it.
pub fn test(value: (i32, i32)) {
}

/// An author with a name and an age.
#[derive(Debug)]
pub struct Author {
    pub name: String,
    pub age: u32,
}

/// Assignment drops the old value unless it was moved out first. Returns the
/// moved-out name, the name assigned afterwards, and two authors.
pub fn ownership_example5() -> (r: (String, String, Vec<Author>))
    ensures
        r.0@ == "Marcus"@,
        r.1@ == "Edvard"@,
        r.2@.len() == 2,
        r.2@[0].name@ == "Mikhail"@,
        r.2@[0].age == 54,
        r.2@[1].name@ == "Jane"@,
        r.2@[1].age == 20,
{
    let mut name = "Marcus".to_string();
    let t = name;
    name = "Edvard".to_string();
    let authors = vec![
        Author { name: "Mikhail".to_string(), age: 54 },
        Author { name: "Jane".to_string(), age: 20 },
    ];
    (t, name, authors)
}

/// An author whose name may have been taken out.
#[derive(Debug)]
pub struct Author2 {
    pub name: Option<String>,
    pub age: u32,
}

pub open spec fn author2_is(a: Author2, name: Seq<char>, age: u32) -> bool {
    &&& a.name is Some
    &&& a.name->Some_0@ == name
    &&& a.age == age
}

/// Three authors, each with a name that is still present.
pub fn ownership_example6() -> (v: Vec<Author2>)
    ensures
        v@.len() == 3,
        author2_is(v@[0], "Zen"@, 19),
        author2_is(v@[1], "Zan"@, 25),
        author2_is(v@[2], "Jen"@, 55),
{
    let v = vec![
        Author2 { name: Some("Zen".to_string()), age: 19 },
        Author2 { name: Some("Zan".to_string()), age: 25 },
        Author2 { name: Some("Jen".to_string()), age: 55 },
    ];
    v
}

/// Three names, each in a box of its own, all owned by the vector.
pub fn ownership_example7() -> (v: Vec<Box<String>>)
    ensures
        v@.len() == 3,
        (*v@[0])@ == "Dan"@,
        (*v@[1])@ == "Hera"@,
        (*v@[2])@ == "Zoe"@,
{
    let v = vec![Box::new("Dan".to_string()), Box::new("Hera".to_string()), Box::new("Zoe".to_string())];
    v
}

/// One string with several reference-counted owners; returns two of them.
pub fn ownership_example8() -> (r: (Rc<String>, Rc<String>))
    ensures
        (*r.0)@ == "David"@,
        (*r.1)@ == "David"@,
{
    let rc_string = Rc::new("David".to_string());
    let c = Rc::clone(&rc_string);
    let _d = Rc::clone(&rc_string);
    (c, rc_string)
}

} // verus!
