use smart_access::at::Cps;
use smart_access::value::{Index, Key, Transform, Value};

fn or_insert(hm: Value, k: i64, v: &str) -> smart_access::at::AT {
    hm.at(Index::Entry(Key::Int(k), Value::Str(v.to_string())))
}

#[test]
fn test() {
    let hm = Value::Dict(Vec::new());

    let (at, _) = or_insert(hm, 0, "Hello").touch();
    let hm = at.into_root().unwrap();
    let (at, _) = or_insert(hm, 1, "world").touch();
    let mut hm = at.into_root().unwrap();

    let keys: Vec<i64> = vec![0, 1];

    let mut answer = String::new();

    for k in keys {
        let (at, r) = hm.at(Index::Key(Key::Int(k))).access(Transform::Fetch);
        hm = at.into_root().unwrap();
        if let Some(Value::Str(v)) = r {
            answer.push_str(&v);
        }
    }

    assert_eq!(answer, "Helloworld");
}
