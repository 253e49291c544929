use eko_core::{
    AgentError, AnyChannel, BinaryOperatorAggregate, Channel, ChannelValues, EphemeralValue, JsonValue,
    LastValue, State, StrMap,
};

type Reducer = fn(JsonValue, JsonValue) -> Result<JsonValue, String>;

fn append_reducer(left: JsonValue, right: JsonValue) -> Result<JsonValue, String> {
    match (left, right) {
        (JsonValue::Array(mut arr), JsonValue::Array(new)) => {
            arr.extend(new);
            Ok(JsonValue::Array(arr))
        }
        _ => Err("expected arrays".to_string()),
    }
}

#[derive(Debug, Clone, PartialEq)]
struct TestState {
    pub query: String,
    pub items: Vec<String>,
    pub scratch: Option<String>,
}

impl State for TestState {
    type Reducer = Reducer;

    fn channels() -> StrMap<Channel<Reducer>> {
        let mut m = StrMap::new();
        m.insert("query".to_string(), Channel::LastValue(LastValue::new()));
        m.insert(
            "items".to_string(),
            Channel::BinaryOperatorAggregate(BinaryOperatorAggregate::new(append_reducer as Reducer)),
        );
        m.insert("scratch".to_string(), Channel::EphemeralValue(EphemeralValue::new()));
        m
    }

    fn from_channel_values(values: &ChannelValues) -> Result<Self, AgentError> {
        let query = match values.get("query") {
            Some(JsonValue::Str(s)) => s.clone(),
            Some(_) => return Err(AgentError::GraphError("query is not a string".to_string())),
            None => String::new(),
        };
        let items = match values.get("items") {
            Some(JsonValue::Array(a)) => {
                let mut out = Vec::new();
                for v in a {
                    match v {
                        JsonValue::Str(s) => out.push(s.clone()),
                        _ => return Err(AgentError::GraphError("items holds a non-string".to_string())),
                    }
                }
                out
            }
            Some(_) => return Err(AgentError::GraphError("items is not an array".to_string())),
            None => Vec::new(),
        };
        let scratch = match values.get("scratch") {
            Some(JsonValue::Str(s)) => Some(s.clone()),
            Some(JsonValue::Null) | None => None,
            Some(_) => return Err(AgentError::GraphError("scratch is not a string".to_string())),
        };
        Ok(TestState { query, items, scratch })
    }

    fn to_channel_values(&self) -> ChannelValues {
        let mut m = StrMap::new();
        m.insert("query".to_string(), JsonValue::Str(self.query.clone()));
        m.insert(
            "items".to_string(),
            JsonValue::Array(self.items.iter().map(|s| JsonValue::Str(s.clone())).collect()),
        );
        m.insert(
            "scratch".to_string(),
            match &self.scratch {
                Some(s) => JsonValue::Str(s.clone()),
                None => JsonValue::Null,
            },
        );
        m
    }

    fn keys() -> Vec<&'static str> {
        vec!["query", "items", "scratch"]
    }
}

#[test]
fn state_channels_generates_correct_types() {
    let channels = TestState::channels();
    assert!(channels.contains_key("query"));
    assert!(channels.contains_key("items"));
    assert!(channels.contains_key("scratch"));
    assert_eq!(channels.len(), 3);

    assert!(!channels.get("scratch").unwrap().is_persistent());
    assert!(channels.get("query").unwrap().is_persistent());
    assert!(channels.get("items").unwrap().is_persistent());
}

#[test]
fn state_keys_returns_all_field_names() {
    let keys = TestState::keys();
    assert_eq!(keys, vec!["query", "items", "scratch"]);
}

#[test]
fn state_roundtrip_channel_values() {
    let state = TestState {
        query: "hello".into(),
        items: vec!["a".into(), "b".into()],
        scratch: Some("tmp".into()),
    };

    let values = state.to_channel_values();
    assert_eq!(values.get("query"), Some(&JsonValue::Str("hello".into())));
    assert_eq!(
        values.get("items"),
        Some(&JsonValue::Array(vec![JsonValue::Str("a".into()), JsonValue::Str("b".into())]))
    );
    assert_eq!(values.get("scratch"), Some(&JsonValue::Str("tmp".into())));

    let restored = TestState::from_channel_values(&values).unwrap();
    assert_eq!(restored, state);
}

#[test]
fn state_from_channel_values_with_missing_fields() {
    let values: ChannelValues = StrMap::new();
    let state = TestState::from_channel_values(&values).unwrap();
    assert_eq!(state.query, "");
    assert!(state.items.is_empty());
    assert_eq!(state.scratch, None);
}
