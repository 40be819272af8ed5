use soroban_host::objects::{ObjError, ObjectStore};
use soroban_host::value::{compare, Val};

#[test]
fn handles_are_fresh_and_increasing() {
    let mut s = ObjectStore::new();
    let a = s.map_new().unwrap();
    let b = s.vec_new().unwrap();
    let c = s.map_put(a, Val::U32(1), Val::Bool(true)).unwrap();
    let d = s.bytes_new_from_slice(&[1, 2, 3]).unwrap();
    assert_eq!(vec![a, b, c, d], vec![0, 1, 2, 3]);
    // The old map is untouched by the put.
    assert_eq!(s.map_len(a), Ok(0));
    assert_eq!(s.map_len(c), Ok(1));
}

#[test]
fn put_existing_key_changes_only_value() {
    let mut s = ObjectStore::new();
    let mut m = s.map_new().unwrap();
    for k in [5u32, 1, 3] {
        m = s.map_put(m, Val::U32(k), Val::U32(k * 10)).unwrap();
    }
    assert_eq!(s.map_len(m), Ok(3));
    let m2 = s.map_put(m, Val::U32(3), Val::U32(99)).unwrap();
    assert_eq!(s.map_len(m2), Ok(3));
    assert_eq!(s.map_get(m2, Val::U32(3)), Ok(Val::U32(99)));
    assert_eq!(s.map_get(m2, Val::U32(1)), Ok(Val::U32(10)));
    assert_eq!(s.map_get(m2, Val::U32(5)), Ok(Val::U32(50)));
    assert_eq!(s.map_get(m, Val::U32(3)), Ok(Val::U32(30)));
    assert_eq!(s.map_get(m2, Val::U32(4)), Err(ObjError::NotFound));
}

#[test]
fn map_entries_stay_in_key_order() {
    let mut s = ObjectStore::new();
    let mut m = s.map_new().unwrap();
    for k in [Val::U32(9), Val::Void, Val::I32(-4), Val::Bool(false), Val::U32(2)] {
        m = s.map_put(m, k, Val::Void).unwrap();
    }
    match &s.objects[m as usize] {
        soroban_host::objects::HostObject::ValMap(e) => {
            let keys: Vec<Val> = e.iter().map(|p| p.0).collect();
            assert_eq!(
                keys,
                vec![Val::Void, Val::Bool(false), Val::U32(2), Val::U32(9), Val::I32(-4)]
            );
            for w in keys.windows(2) {
                assert_eq!(compare(w[0], w[1]), -1);
            }
        }
        _ => panic!("not a map"),
    }
}

#[test]
fn bad_handles_are_typed_errors() {
    let mut s = ObjectStore::new();
    let v = s.vec_new().unwrap();
    assert_eq!(s.map_put(v, Val::Void, Val::Void), Err(ObjError::WrongKind));
    assert_eq!(s.map_put(7, Val::Void, Val::Void), Err(ObjError::NoSuchObject));
    assert_eq!(s.vec_push_back(7, Val::Void), Err(ObjError::NoSuchObject));
    assert_eq!(s.vec_get(v, 0), Err(ObjError::NotFound));
    let v2 = s.vec_push_back(v, Val::I32(3)).unwrap();
    assert_eq!(s.vec_get(v2, 0), Ok(Val::I32(3)));
    assert_eq!(s.vec_len(v), Ok(0));
}

#[test]
fn compare_orders_by_kind_then_payload() {
    assert_eq!(compare(Val::Void, Val::Bool(false)), -1);
    assert_eq!(compare(Val::U32(3), Val::U32(3)), 0);
    assert_eq!(compare(Val::I32(-1), Val::U32(100)), 1);
    assert_eq!(compare(Val::I32(-1), Val::I32(2)), -1);
    assert_eq!(compare(Val::Object(4), Val::Object(2)), 1);
}

fn vec_of(s: &mut ObjectStore, xs: &[i32]) -> u32 {
    let mut v = s.vec_new().unwrap();
    for x in xs {
        v = s.vec_push_back(v, Val::I32(*x)).unwrap();
    }
    v
}

fn items(s: &ObjectStore, v: u32) -> Vec<i32> {
    let n = s.vec_len(v).unwrap();
    (0..n)
        .map(|i| match s.vec_get(v, i).unwrap() {
            Val::I32(x) => x,
            _ => panic!("not an integer"),
        })
        .collect()
}

#[test]
fn vector_edits_make_new_vectors() {
    let mut s = ObjectStore::new();
    let v = vec_of(&mut s, &[1, 2, 3, 4]);
    let p = s.vec_put(v, 1, Val::I32(9)).unwrap();
    assert_eq!(items(&s, p), vec![1, 9, 3, 4]);
    let ins = s.vec_insert(v, 4, Val::I32(5)).unwrap();
    assert_eq!(items(&s, ins), vec![1, 2, 3, 4, 5]);
    let front = s.vec_insert(v, 0, Val::I32(0)).unwrap();
    assert_eq!(items(&s, front), vec![0, 1, 2, 3, 4]);
    let del = s.vec_del(v, 0).unwrap();
    assert_eq!(items(&s, del), vec![2, 3, 4]);
    let take = s.vec_take(v, 2).unwrap();
    assert_eq!(items(&s, take), vec![1, 2]);
    let drop = s.vec_drop(v, 3).unwrap();
    assert_eq!(items(&s, drop), vec![4]);
    let app = s.vec_append(take, drop).unwrap();
    assert_eq!(items(&s, app), vec![1, 2, 4]);
    assert_eq!(items(&s, v), vec![1, 2, 3, 4]);
}

#[test]
fn vector_edits_out_of_range() {
    let mut s = ObjectStore::new();
    let v = vec_of(&mut s, &[1, 2]);
    let n = s.objects.len();
    assert_eq!(s.vec_put(v, 2, Val::Void), Err(ObjError::NotFound));
    assert_eq!(s.vec_del(v, 2), Err(ObjError::NotFound));
    assert_eq!(s.vec_insert(v, 3, Val::Void), Err(ObjError::NotFound));
    assert_eq!(s.vec_take(v, 3), Err(ObjError::NotFound));
    assert_eq!(s.vec_drop(v, 3), Err(ObjError::NotFound));
    let m = s.map_new().unwrap();
    assert_eq!(s.vec_append(v, m), Err(ObjError::WrongKind));
    assert_eq!(s.objects.len(), n + 1);
}

#[test]
fn map_delete_and_membership() {
    let mut s = ObjectStore::new();
    let mut m = s.map_new().unwrap();
    for k in [3u32, 1, 2] {
        m = s.map_put(m, Val::U32(k), Val::U32(k)).unwrap();
    }
    assert_eq!(s.map_has(m, Val::U32(2)), Ok(true));
    let d = s.map_del(m, Val::U32(2)).unwrap();
    assert_eq!(s.map_has(d, Val::U32(2)), Ok(false));
    assert_eq!(s.map_len(d), Ok(2));
    assert_eq!(s.map_get(d, Val::U32(3)), Ok(Val::U32(3)));
    assert_eq!(s.map_del(d, Val::U32(2)), Err(ObjError::NotFound));
    assert_eq!(s.map_has(m, Val::U32(2)), Ok(true));
}
