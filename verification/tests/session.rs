use unqlite::document::{Jx9, Value, ValueMap};
use unqlite::{Error, ErrorKind, UnQLite};

#[test]
fn output_std() {
    let db = UnQLite::create("data.base");
    let prog = "print '-- hello '; print 'world --\n';";
    db.compile(prog.as_bytes())
        .and_then(|mut vm| {
            vm.output_to_stdout()?;
            vm.report_errors_to_output()?;
            vm.exec_void()?;
            vm.output_length().map(|len| assert_eq!(18, len))
        })
        .unwrap()
}

#[test]
fn dump_vm_instructions() {
    let db = UnQLite::create_in_memory();
    let prog = "print 'hello '; print 'world'..'!';";
    db.compile(prog.as_bytes()).and_then(|vm| vm.dump()).unwrap();
}

#[test]
fn output_extract() {
    let db = UnQLite::create_in_memory();
    let prog = "print 'hello '; print 'world';";
    db.compile(prog.as_bytes())
        .and_then(|mut vm| {
            vm.exec().and_then(|_| {
                vm.extract_output()
                    .map(|msg| assert_eq!("hello world", String::from_utf8_lossy(msg)))
            })
        })
        .unwrap();
}

#[test]
fn arguments() {
    let db = UnQLite::create_in_memory();
    let prog = "print $argv[0]..' '..$argv[1];";
    db.compile(prog.as_bytes())
        .and_then(|mut vm| {
            vm.add_argument(b"hello")?;
            vm.add_argument(b"world")?;
            let output = vm.exec().and_then(|_| vm.extract_output())?;
            assert_eq!(b"hello world".as_slice(), output);
            Ok(())
        })
        .unwrap()
}

#[test]
fn env_attributes() {
    let db = UnQLite::create_in_memory();
    let prog = "print $_ENV['_']..' '..$_ENV['name']..$_ENV['NAME'];";
    db.compile(prog.as_bytes())
        .and_then(|mut vm| {
            vm.add_env_attr(b"_", b"Hello")?;
            vm.add_env_attr(b"name", b"world")?;
            vm.add_env_attr(b"NAME", b"!")?;
            let output = vm.exec().and_then(|_| vm.extract_output())?;
            let output = String::from_utf8_lossy(output);
            assert_eq!("Hello world!", output);
            Ok(())
        })
        .unwrap()
}

#[test]
fn exec_result() {
    let db = UnQLite::create_in_memory();

    db.compile(b"print 'will return null';")
        .map(|mut vm| {
            // a run without an explicit return yields absent
            assert_eq!(None, vm.exec().unwrap());
        })
        .unwrap();

    db.compile(b"return -42;")
        .map(|mut vm| {
            assert_eq!(Some(Value::Int(-42)), vm.exec().unwrap());
        })
        .unwrap();

    db.compile(b"return 12.345;")
        .map(|mut vm| {
            assert_eq!(Some(Value::Real(12.345f64.to_bits())), vm.exec().unwrap());
        })
        .unwrap();

    db.compile(b"return 'hello';")
        .map(|mut vm| {
            assert_eq!(Some(Value::String("hello".to_string())), vm.exec().unwrap());
        })
        .unwrap();

    db.compile(b"return [1,2,'test',[3,4.5,null]];")
        .map(|mut vm| {
            let test = Value::Array(vec![
                Value::Int(1),
                Value::Int(2),
                Value::string("test"),
                Value::Array(vec![Value::Int(3), Value::Real(4.5f64.to_bits()), Value::Null]),
            ]);
            assert_eq!(Some(test), vm.exec().unwrap());
        })
        .unwrap();

    db.compile(
        "return {'key_one': 123, 'key_2': 'string_value', 'key_3': [1,2,3],
               'key_4': {'sub_key': 'sub_value', 'sub_key2': 42}, 'key_5': 1.2};"
            .as_bytes(),
    )
    .map(|mut vm| {
        vm.exec()
            .map(|opt| opt.unwrap())
            .map(|result| {
                let map: Option<ValueMap> = result.as_object();
                assert!(map.is_some());
                if let Some(map) = map {
                    assert_eq!(5, map.len());
                    assert_eq!(Value::Int(123), map.get("key_one").unwrap());
                    let s: Option<String> = map.get("key_2").unwrap().as_string();
                    assert_eq!("string_value", s.unwrap());
                    assert_eq!(
                        Value::Array(vec![Value::Int(1), Value::Int(2), Value::Int(3)]),
                        map.get("key_3").unwrap()
                    );
                    if let Some(Value::Object(sub_map)) = map.get("key_4") {
                        assert_eq!(Value::Int(42), sub_map.get("sub_key2").unwrap());
                    } else {
                        assert!(false);
                    }
                }
            })
            .unwrap()
    })
    .unwrap();
}

#[test]
fn add_extract_variable() {
    let db = UnQLite::create_in_memory();
    let prog = "$val1 = $in1;\
                $val2 = $in2..'_mod';\
                $val3 = {key1: $in3, key2: $in4};
                $val4 = $map1 + $map2;\
                $val5 = $map2 + $map1;\
                $arr2 = $arr1 + 'new_elem';\
                if ($val6 >= 0) { return 'pos'; } \
                else { return 'neg'; }";
    db.compile(prog.as_bytes())
        .and_then(|mut vm| {
            vm.add_variable(b"in1", Value::Int(10))?;
            vm.add_variable(b"in2", Value::string("test"))?;
            vm.add_variable(b"in3", Value::string("value"))?;
            vm.add_variable(b"in4", Value::Real(12.34f64.to_bits()))?;
            let mut map1 = ValueMap::new();
            map1.insert("name", Value::string("one"));
            let mut map2 = ValueMap::new();
            map2.insert("name", Value::string("two"));
            map2.insert("key", Value::Int(12));
            vm.add_variable(b"map1", Value::Object(map1))?;
            vm.add_variable(b"map2", Value::Object(map2))?;
            vm.add_variable(b"arr1", Value::Array(vec![Value::Null, Value::Int(100)]))?;
            vm.add_variable(b"val6", Value::Int(10))?;
            vm.exec().and_then(|result| {
                assert_eq!(Some(Value::string("pos")), result);
                assert_eq!(Some(Value::Int(10)), vm.extract_variable(b"val1"));
                assert_eq!(Some(Value::string("test_mod")), vm.extract_variable(b"val2"));

                let val3: Option<ValueMap> = vm.extract_variable(b"val3").unwrap().as_object();
                let val3 = val3.unwrap();
                assert_eq!(2, val3.len());
                assert_eq!(Value::string("value"), val3.get("key1").unwrap());
                assert_eq!(Value::Real(12.34f64.to_bits()), val3.get("key2").unwrap());

                let val4: Option<ValueMap> = vm.extract_variable(b"val4").unwrap().as_object();
                let val4 = val4.unwrap();
                assert_eq!(2, val4.len());
                assert_eq!(Value::string("one"), val4.get("name").unwrap());
                assert_eq!(Value::Int(12), val4.get("key").unwrap());

                let val5: Option<ValueMap> = vm.extract_variable(b"val5").unwrap().as_object();
                let val5 = val5.unwrap();
                assert_eq!(2, val5.len());
                assert_eq!(Value::string("two"), val5.get("name").unwrap());
                assert_eq!(Value::Int(12), val5.get("key").unwrap());

                let arr2: Option<Vec<Value>> = vm.extract_variable(b"arr2").unwrap().as_array();
                let arr2 = arr2.unwrap();
                assert_eq!(3, arr2.len());
                assert_eq!(Value::string("new_elem"), arr2[2]);

                Ok(())
            })
        })
        .unwrap()
}

#[test]
fn rerun_reproduces_output_length() {
    let db = UnQLite::create_in_memory();
    let mut vm = db.compile(b"print 'hello '; print 'world';").unwrap();
    vm.exec_void().unwrap();
    let first = vm.output_length().unwrap();
    vm.exec_void().unwrap();
    let second = vm.output_length().unwrap();
    assert_eq!(first, 11);
    assert_eq!(second, 11);
    assert_eq!(vm.extract_output().unwrap(), b"hello world".as_slice());
}

#[test]
fn queue_sink_ordering() {
    let db = UnQLite::create_in_memory();
    let mut vm = db.compile(b"print 'hello';print 'world';").unwrap();
    vm.report_errors_to_output().unwrap();
    let receiver = vm.output_to_channel().unwrap();
    vm.exec_void().unwrap();
    assert_eq!(10, vm.output_length().unwrap());
    assert_eq!(b"hello".to_vec(), receiver.try_recv().unwrap());
    assert_eq!(b"world".to_vec(), receiver.try_recv().unwrap());
    assert!(receiver.try_recv().is_err());
}

#[test]
fn queue_sink_disconnection_tolerated() {
    let db = UnQLite::create_in_memory();
    let mut vm = db.compile(b"print 'hello';print 'world';").unwrap();
    let receiver = vm.output_to_channel().unwrap();
    drop(receiver);
    vm.exec_void().unwrap();
    assert_eq!(10, vm.output_length().unwrap());

    // a fresh binding yields a working new channel
    let fresh = vm.output_to_channel().unwrap();
    vm.exec_void().unwrap();
    assert_eq!(b"hello".to_vec(), fresh.try_recv().unwrap());
    assert_eq!(b"world".to_vec(), fresh.try_recv().unwrap());
}

#[test]
fn absent_vs_null() {
    let db = UnQLite::create_in_memory();
    let mut vm = db.compile(b"return 1;").unwrap();
    assert_eq!(None, vm.extract_variable(b"never_injected"));
    vm.add_variable(b"holds_null", Value::Null).unwrap();
    assert_eq!(Some(Value::Null), vm.extract_variable(b"holds_null"));
    assert_eq!(None, vm.extract_variable(b"never_injected"));
}

#[test]
fn variable_round_trip() {
    let db = UnQLite::create_in_memory();
    let mut vm = db.compile(b"return 1;").unwrap();
    let mut inner = ValueMap::new();
    inner.insert("flag", Value::Bool(true));
    inner.insert("weight", Value::Real(2.5f64.to_bits()));
    let value = Value::Array(vec![
        Value::Null,
        Value::Int(-7),
        Value::string("text"),
        Value::Object(inner),
    ]);
    vm.add_variable(b"round", value).unwrap();

    let mut expected_inner = ValueMap::new();
    expected_inner.insert("flag", Value::Bool(true));
    expected_inner.insert("weight", Value::Real(2.5f64.to_bits()));
    let expected = Value::Array(vec![
        Value::Null,
        Value::Int(-7),
        Value::string("text"),
        Value::Object(expected_inner),
    ]);
    assert_eq!(Some(expected), vm.extract_variable(b"round"));
}

#[test]
fn embedded_terminator_rejected() {
    let db = UnQLite::create_in_memory();
    let mut vm = db.compile(b"return 1;").unwrap();
    assert_eq!(Err(Error::Nul), vm.add_variable(b"bad\0name", Value::Int(1)));
    assert_eq!(Err(Error::Nul), vm.add_variable(b"name", Value::string("bad\0text")));
    assert_eq!(Err(Error::Nul), vm.add_argument(b"a\0b"));
    assert_eq!(Err(Error::Nul), vm.add_env_attr(b"k\0ey", b"v"));
    assert_eq!(Err(Error::Nul), vm.import_path("p\0ath"));
    assert_eq!(None, vm.extract_variable(b"a\0b"));
    // nothing was handed to the engine, so the session still works
    vm.add_variable(b"name", Value::Int(3)).unwrap();
    assert_eq!(Some(Value::Int(3)), vm.extract_variable(b"name"));
}

#[test]
fn compile_error_classified() {
    let db = UnQLite::create_in_memory();
    match db.compile(b"not a program !!") {
        Err(Error::Custom(c)) => {
            assert_eq!(c.kind, ErrorKind::COMPILE_ERR);
            assert_eq!(c.raw, -70);
        }
        _ => panic!("source outside the grammar must fail to compile"),
    }
}

#[test]
fn machine_error_classified() {
    let db = UnQLite::create_in_memory();
    // the machine has no rendering for a real number
    let mut vm = db.compile(b"print 'early';print 1.5;").unwrap();
    match vm.exec_void() {
        Err(Error::Custom(c)) => assert_eq!(c.kind, ErrorKind::VM_ERR),
        _ => panic!("printing a real must raise a machine error"),
    }
    // output emitted before the error is kept
    assert_eq!(vm.extract_output().unwrap(), b"early".as_slice());
    // the session survives and may run again
    match vm.exec_void() {
        Err(Error::Custom(c)) => assert_eq!(c.kind, ErrorKind::VM_ERR),
        _ => panic!("the rerun hits the same machine error"),
    }
}

#[test]
fn lossy_string_extraction() {
    let db = UnQLite::create_in_memory();
    // the byte 0xe9 starts no well-formed scalar encoding
    let mut vm = db.compile(b"return 'caf\xe9';").unwrap();
    let got = vm.exec().unwrap().unwrap();
    assert_eq!(got, Value::String("caf\u{fffd}".to_string()));
}

#[test]
fn import_and_recursion_configuration() {
    let db = UnQLite::create_in_memory();
    let mut vm = db.compile(b"return 1;").unwrap();
    vm.import_path("scripts").unwrap();
    vm.recursion_depth(32).unwrap();
    vm.report_errors_to_output().unwrap();
    assert_eq!(Some(Value::Int(1)), vm.exec().unwrap());
}

#[test]
fn lossy_string_maximal_subparts() {
    let db = UnQLite::create_in_memory();
    // a truncated four-byte encoding is one replacement character
    let mut vm = db.compile(b"return '\xf0\x90\x80';").unwrap();
    assert_eq!(vm.exec().unwrap(), Some(Value::String("\u{fffd}".to_string())));
    // a truncated three-byte encoding, likewise
    let mut vm = db.compile(b"return 'a\xe2\x82';").unwrap();
    assert_eq!(vm.exec().unwrap(), Some(Value::String("a\u{fffd}".to_string())));
    // a lead whose follower is outside its admitted range starts over at
    // the follower: two replacement characters
    let mut vm = db.compile(b"return '\xe0\x80';").unwrap();
    assert_eq!(vm.exec().unwrap(), Some(Value::String("\u{fffd}\u{fffd}".to_string())));
}
